//! The tree that is shown.
use vstd::prelude::*;
use vstd::slice::slice_subrange;

use super::paths::{lists, text_lt, PathMap};
use super::{DiffStatus, ScannedFile};
use crate::sort::{
    covers, lemma_rank_order_distinct, name_le, ranks_before, sorted_positions, NameKey,
};
use crate::text::search::{lemma_rfind_to, occurs_at, rfind, rfind_in};
use crate::text::{chars_of, string_of, texts};

verus! {

/// A node of the tree.
#[derive(Debug)]
pub struct DiffNode {
    /// The name.
    pub n: String,
    /// 'd' for a folder, 'f' for anything else.
    pub t: char,
    /// How the two sides compare, everything below included.
    pub s: DiffStatus,
    /// The size on the first side, where it is there and no folder.
    pub size_a: Option<u64>,
    /// The size on the second side, where it is there and no folder.
    pub size_b: Option<u64>,
    /// It is a link on the first side.
    pub link_a: bool,
    /// It is a link on the second side.
    pub link_b: bool,
    /// It is hidden wherever it is there.
    pub h: bool,
    /// What it holds.
    pub ch: Vec<DiffNode>,
}

/// What a tree is built from: the positions in the order shown, and what is known
/// of them.
pub struct Listing {
    /// The positions in the order shown.
    pub paths: Seq<Seq<char>>,
    /// What was found on the first side.
    pub a: Map<Seq<char>, ScannedFile>,
    /// What was found on the second side.
    pub b: Map<Seq<char>, ScannedFile>,
    /// How the positions compare.
    pub statuses: Map<Seq<char>, DiffStatus>,
}

/// Every position once, by name.
pub open spec fn well_listed(t: Listing) -> bool {
    &&& forall|i: int| 0 <= i < t.paths.len() ==> t.statuses.contains_key(#[trigger] t.paths[i])
    &&& forall|x: Seq<char>| t.statuses.contains_key(x) ==> #[trigger] t.paths.contains(x)
    &&& forall|i: int, j: int|
        0 <= i < j < t.paths.len() ==> name_le(#[trigger] t.paths[i], #[trigger] t.paths[j])
            && t.paths[i] != t.paths[j]
}

/// The last name of a position.
pub open spec fn own_name(path: Seq<char>) -> Seq<char> {
    match rfind(path, "/"@) {
        Some(c) => path.skip(c + 1),
        None => path,
    }
}

/// The position around another one, where it has one.
pub open spec fn around(path: Seq<char>) -> Option<Seq<char>> {
    match rfind(path, "/"@) {
        Some(c) => Some(path.take(c)),
        None => None,
    }
}

/// The number of the position around the one with number `i`, where it is listed.
pub open spec fn parent_index(t: Listing, i: int) -> Option<int> {
    match around(t.paths[i]) {
        Some(p) => if exists|j: int| 0 <= j < t.paths.len() && #[trigger] t.paths[j] == p {
            Some(choose|j: int| 0 <= j < t.paths.len() && #[trigger] t.paths[j] == p)
        } else {
            None
        },
        None => None,
    }
}

/// The first `n` positions that belong to the given one, or to none, in order.
pub open spec fn belonging(t: Listing, to: Option<int>, n: int) -> Seq<int>
    decreases n,
{
    if n <= 0 {
        Seq::empty()
    } else if parent_index(t, n - 1) == to {
        belonging(t, to, n - 1).push(n - 1)
    } else {
        belonging(t, to, n - 1)
    }
}

/// A position is a folder, as the first side that has it says.
pub open spec fn is_folder(t: Listing, x: Seq<char>) -> bool {
    if t.a.contains_key(x) {
        t.a[x].is_dir
    } else {
        t.b.contains_key(x) && t.b[x].is_dir
    }
}

/// The size that a side shows.
pub open spec fn size_on(side: Map<Seq<char>, ScannedFile>, x: Seq<char>) -> Option<u64> {
    if side.contains_key(x) && !side[x].is_dir {
        Some(side[x].size)
    } else {
        None
    }
}

/// Hidden only where every side that has it says so: hidden on one side and plain
/// on the other is a difference, and hiding it would conceal exactly what is to
/// be shown.
pub open spec fn is_hidden(t: Listing, x: Seq<char>) -> bool {
    &&& t.a.contains_key(x) || t.b.contains_key(x)
    &&& t.a.contains_key(x) ==> t.a[x].hidden
    &&& t.b.contains_key(x) ==> t.b[x].hidden
}

/// The length of the longest position.
pub open spec fn longest(paths: Seq<Seq<char>>) -> nat
    decreases paths.len(),
{
    if paths.len() == 0 {
        0
    } else if paths.last().len() > longest(paths.drop_last()) {
        paths.last().len()
    } else {
        longest(paths.drop_last())
    }
}

proof fn lemma_longest(paths: Seq<Seq<char>>)
    ensures
        forall|i: int| 0 <= i < paths.len() ==> (#[trigger] paths[i]).len() <= longest(paths),
    decreases paths.len(),
{
    if paths.len() > 0 {
        let front = paths.drop_last();
        lemma_longest(front);
        assert forall|i: int| 0 <= i < paths.len() implies (#[trigger] paths[i]).len() <= longest(
            paths,
        ) by {
            if i < front.len() {
                assert(front[i] == paths[i]);
            }
        }
    }
}

/// What a position holds has a longer one.
pub proof fn lemma_held_is_longer(t: Listing)
    ensures
        forall|c: int|
            0 <= c < t.paths.len() ==> (#[trigger] parent_index(t, c) matches Some(i)
                ==> t.paths[i].len() < t.paths[c].len() <= longest(t.paths)),
{
    lemma_longest(t.paths);
    reveal_strlit("/");
    assert forall|c: int| 0 <= c < t.paths.len() implies (#[trigger] parent_index(t, c) matches Some(
        i,
    ) ==> t.paths[i].len() < t.paths[c].len() <= longest(t.paths)) by {
        let x = t.paths[c];
        lemma_rfind_to(x, "/"@, x.len() - "/"@.len());
        lemma_parent_index(t, c);
    }
}

/// How a position is shown: a folder that is the same by itself differs as soon
/// as something it holds is not the same.
pub open spec fn shown_status(t: Listing, i: int) -> DiffStatus
    decreases longest(t.paths) - t.paths[i].len(),
{
    proof {
        lemma_held_is_longer(t);
    }
    let own = t.statuses[t.paths[i]];
    if is_folder(t, t.paths[i]) && own == DiffStatus::Same && exists|c: int|
        0 <= c < t.paths.len() && #[trigger] parent_index(t, c) == Some(i) && shown_status(t, c)
            != DiffStatus::Same {
        DiffStatus::Diff
    } else {
        own
    }
}

/// A node shows the position with number `i`, everything below included.
pub open spec fn is_node(node: DiffNode, t: Listing, i: int) -> bool
    decreases node,
{
    let x = t.paths[i];
    let kids = belonging(t, Some(i), t.paths.len() as int);
    &&& node.n@ == own_name(x)
    &&& node.t == if is_folder(t, x) {
        'd'
    } else {
        'f'
    }
    &&& node.s == shown_status(t, i)
    &&& node.size_a == size_on(t.a, x)
    &&& node.size_b == size_on(t.b, x)
    &&& node.link_a == (t.a.contains_key(x) && t.a[x].is_symlink)
    &&& node.link_b == (t.b.contains_key(x) && t.b[x].is_symlink)
    &&& node.h == is_hidden(t, x)
    &&& node.ch@.len() == kids.len()
    &&& forall|k: int| 0 <= k < node.ch@.len() ==> is_node(#[trigger] node.ch@[k], t, kids[k])
}

/// The nodes show everything that belongs to nothing else, and all below it.
pub open spec fn is_forest(nodes: Seq<DiffNode>, t: Listing) -> bool {
    let roots = belonging(t, None, t.paths.len() as int);
    &&& nodes.len() == roots.len()
    &&& forall|k: int| 0 <= k < nodes.len() ==> is_node(#[trigger] nodes[k], t, roots[k])
}

/// A position around another one is listed.
pub proof fn lemma_parent_index(t: Listing, i: int)
    ensures
        match parent_index(t, i) {
            Some(j) => 0 <= j < t.paths.len() && around(t.paths[i]) == Some(t.paths[j]),
            None => true,
        },
{
}

/// What belongs to a position is exactly what has it around, in order.
pub proof fn lemma_belonging(t: Listing, to: Option<int>, n: int)
    ensures
        forall|k: int|
            0 <= k < belonging(t, to, n).len() ==> 0 <= #[trigger] belonging(t, to, n)[k] < n
                && parent_index(t, belonging(t, to, n)[k]) == to,
        forall|c: int|
            0 <= c < n && #[trigger] parent_index(t, c) == to ==> belonging(t, to, n).contains(c),
        forall|k: int, l: int|
            0 <= k < l < belonging(t, to, n).len() ==> #[trigger] belonging(t, to, n)[k]
                < #[trigger] belonging(t, to, n)[l],
    decreases n,
{
    if n > 0 {
        lemma_belonging(t, to, n - 1);
        let before = belonging(t, to, n - 1);
        let all = belonging(t, to, n);
        assert forall|c: int| 0 <= c < n && #[trigger] parent_index(t, c) == to implies all.contains(
            c,
        ) by {
            if c == n - 1 {
                assert(all[all.len() - 1] == c);
            } else {
                assert(before.contains(c));
                let k = choose|k: int| 0 <= k < before.len() && before[k] == c;
                assert(all[k] == c);
            }
        }
    }
}

/// Every position has its place in the tree: it is shown once, under the one
/// position that is around it, or at the top where there is none.
pub proof fn law_every_position_has_its_place(t: Listing, i: int, to: Option<int>)
    requires
        0 <= i < t.paths.len(),
    ensures
        belonging(t, to, t.paths.len() as int).contains(i) <==> to == parent_index(t, i),
        belonging(t, to, t.paths.len() as int).no_duplicates(),
{
    let n = t.paths.len() as int;
    lemma_belonging(t, to, n);
    let all = belonging(t, to, n);
    if all.contains(i) {
        let k = choose|k: int| 0 <= k < all.len() && all[k] == i;
        assert(parent_index(t, all[k]) == to);
    }
}

/// A folder that is listed is found when what it holds gets its place, wherever it
/// stands in the order shown.
pub proof fn law_a_listed_folder_is_found(t: Listing, i: int, j: int)
    requires
        well_listed(t),
        0 <= i < t.paths.len(),
        0 <= j < t.paths.len(),
        around(t.paths[i]) == Some(t.paths[j]),
    ensures
        parent_index(t, i) == Some(j),
{
    lemma_parent_index(t, i);
    let k = parent_index(t, i)->0;
    if k < j {
        assert(t.paths[k] != t.paths[j]);
    } else if j < k {
        assert(t.paths[j] != t.paths[k]);
    }
}

/// And only at the top is a position shown that has nothing around it, or nothing that
/// is listed.
pub proof fn law_only_the_topmost_stand_alone(t: Listing, i: int)
    requires
        well_listed(t),
        0 <= i < t.paths.len(),
    ensures
        parent_index(t, i) is None <==> (around(t.paths[i]) matches Some(p) ==> !t.paths.contains(
            p,
        )),
{
    if let Some(p) = around(t.paths[i]) {
        if t.paths.contains(p) {
            let j = choose|j: int| 0 <= j < t.paths.len() && t.paths[j] == p;
            law_a_listed_folder_is_found(t, i, j);
        } else if parent_index(t, i) is Some {
            lemma_parent_index(t, i);
            assert(t.paths.contains(t.paths[parent_index(t, i)->0]));
        }
    }
}

/// A difference shows all the way up: a folder that holds something that is not
/// the same is not shown as the same.
pub proof fn law_a_difference_shows_above(t: Listing, c: int, i: int)
    requires
        0 <= c < t.paths.len(),
        parent_index(t, c) == Some(i),
        is_folder(t, t.paths[i]),
        shown_status(t, c) != DiffStatus::Same,
    ensures
        shown_status(t, i) != DiffStatus::Same,
{
    lemma_parent_index(t, c);
}

/// And a folder that is the same by itself is shown as the same where everything
/// that it holds is.
pub proof fn law_sameness_shows_above(t: Listing, i: int)
    requires
        0 <= i < t.paths.len(),
        t.statuses[t.paths[i]] == DiffStatus::Same,
        forall|c: int|
            0 <= c < t.paths.len() && #[trigger] parent_index(t, c) == Some(i) ==> shown_status(
                t,
                c,
            ) == DiffStatus::Same,
    ensures
        shown_status(t, i) == DiffStatus::Same,
{
}

/// A folder that is on one side only keeps its status, whatever it holds.
pub proof fn law_one_sided_folders_keep_their_status(t: Listing, i: int)
    requires
        0 <= i < t.paths.len(),
        t.statuses[t.paths[i]] != DiffStatus::Same,
    ensures
        shown_status(t, i) == t.statuses[t.paths[i]],
{
}

/// The name of a node is the last name of its position: no slash is in it, and with the
/// position around it and a slash it makes up the position.
pub proof fn law_a_name_ends_its_position(path: Seq<char>)
    ensures
        around(path) is Some <==> path.contains('/'),
        around(path) matches Some(p) ==> path == p + seq!['/'] + own_name(path) && !own_name(
            path,
        ).contains('/'),
        around(path) is None ==> own_name(path) == path,
{
    reveal_strlit("/");
    assert("/"@ =~= seq!['/']);
    lemma_rfind_to(path, "/"@, path.len() - "/"@.len());
    match rfind(path, "/"@) {
        Some(c) => {
            assert(path.subrange(c, c + 1)[0] == path[c]);
            assert(path[c] == '/');
            assert(path =~= path.take(c) + seq!['/'] + path.skip(c + 1));
            let name = path.skip(c + 1);
            if name.contains('/') {
                let k = choose|k: int| 0 <= k < name.len() && name[k] == '/';
                assert(path.subrange(c + 1 + k, c + 1 + k + 1) =~= seq!['/']);
                assert(occurs_at(path, "/"@, c + 1 + k));
            }
        },
        None => {
            if path.contains('/') {
                let k = choose|k: int| 0 <= k < path.len() && path[k] == '/';
                assert(path.subrange(k, k + 1) =~= seq!['/']);
                assert(occurs_at(path, "/"@, k));
            }
        },
    }
}

/// A position is shown as a folder exactly where the side that has it lists it as one,
/// whichever side that is; where both have it, the first side says.
pub proof fn law_a_folder_is_shown_as_one(node: DiffNode, t: Listing, i: int)
    requires
        is_node(node, t, i),
    ensures
        node.t == 'd' || node.t == 'f',
        t.a.contains_key(t.paths[i]) ==> (node.t == 'd' <==> t.a[t.paths[i]].is_dir),
        t.b.contains_key(t.paths[i]) && !t.a.contains_key(t.paths[i]) ==> (node.t == 'd'
            <==> t.b[t.paths[i]].is_dir),
        !t.a.contains_key(t.paths[i]) && !t.b.contains_key(t.paths[i]) ==> node.t == 'f',
{
}

/// What holds something is shown as a folder: where each side lists the folder around
/// whatever it lists, a position around a listed one has a folder for its node, unless
/// the first side lists something else in its place.
pub proof fn law_what_holds_something_is_a_folder(node: DiffNode, t: Listing, c: int, i: int)
    requires
        well_listed(t),
        0 <= c < t.paths.len(),
        0 <= i < t.paths.len(),
        around(t.paths[c]) == Some(t.paths[i]),
        t.a.contains_key(t.paths[c]) || t.b.contains_key(t.paths[c]),
        t.a.contains_key(t.paths[c]) ==> t.a.contains_key(t.paths[i]) && t.a[t.paths[i]].is_dir,
        t.b.contains_key(t.paths[c]) ==> t.b.contains_key(t.paths[i]) && t.b[t.paths[i]].is_dir,
        t.a.contains_key(t.paths[i]) ==> t.a[t.paths[i]].is_dir,
        is_node(node, t, i),
    ensures
        node.t == 'd',
        exists|k: int| 0 <= k < node.ch@.len() && #[trigger] is_node(node.ch@[k], t, c),
{
    law_a_listed_folder_is_found(t, c, i);
    law_a_node_holds_what_belongs_to_it(node, t, i, c);
}

/// A node shows a listed position that has the one with number `i` around it.
pub open spec fn shows_one_below(node: DiffNode, t: Listing, i: int) -> bool {
    exists|d: int|
        0 <= d < t.paths.len() && around(t.paths[d]) == Some(t.paths[i]) && #[trigger] is_node(
            node,
            t,
            d,
        )
}

/// A node holds exactly what belongs to it: the positions right below it that are listed,
/// each once, in the order of the listing.
pub proof fn law_a_node_holds_what_belongs_to_it(node: DiffNode, t: Listing, i: int, c: int)
    requires
        well_listed(t),
        is_node(node, t, i),
        0 <= i < t.paths.len(),
        0 <= c < t.paths.len(),
    ensures
        around(t.paths[c]) == Some(t.paths[i]) ==> exists|k: int|
            0 <= k < node.ch@.len() && #[trigger] is_node(node.ch@[k], t, c),
        forall|k: int|
            0 <= k < node.ch@.len() ==> shows_one_below(#[trigger] node.ch@[k], t, i),
{
    let n = t.paths.len() as int;
    let kids = belonging(t, Some(i), n);
    lemma_belonging(t, Some(i), n);
    if around(t.paths[c]) == Some(t.paths[i]) {
        law_a_listed_folder_is_found(t, c, i);
        assert(kids.contains(c));
        let k = choose|k: int| 0 <= k < kids.len() && kids[k] == c;
        assert(is_node(node.ch@[k], t, kids[k]));
    }
    assert forall|k: int| 0 <= k < node.ch@.len() implies shows_one_below(
        #[trigger] node.ch@[k],
        t,
        i,
    ) by {
        assert(is_node(node.ch@[k], t, kids[k]));
        lemma_parent_index(t, kids[k]);
    }
}

/// Everything that is not below something listed is at the top, and nothing else is.
pub proof fn law_the_top_holds_the_rest(nodes: Seq<DiffNode>, t: Listing, c: int)
    requires
        well_listed(t),
        is_forest(nodes, t),
        0 <= c < t.paths.len(),
        around(t.paths[c]) matches Some(p) ==> !t.statuses.contains_key(p),
    ensures
        exists|k: int| 0 <= k < nodes.len() && #[trigger] is_node(nodes[k], t, c),
{
    let n = t.paths.len() as int;
    let roots = belonging(t, None, n);
    lemma_belonging(t, None, n);
    law_only_the_topmost_stand_alone(t, c);
    if let Some(p) = around(t.paths[c]) {
        if t.paths.contains(p) {
            let j = choose|j: int| 0 <= j < t.paths.len() && t.paths[j] == p;
            assert(t.statuses.contains_key(t.paths[j]));
        }
    }
    assert(roots.contains(c));
    let k = choose|k: int| 0 <= k < roots.len() && roots[k] == c;
    assert(is_node(nodes[k], t, roots[k]));
}

/// A node shows the size of each side that has a file there, and none for a side that has
/// a folder or nothing; the links of each side; and that it is hidden only where every
/// side that has it says so.
pub proof fn law_a_node_shows_each_side(node: DiffNode, t: Listing, i: int)
    requires
        is_node(node, t, i),
    ensures
        ({
            let x = t.paths[i];
            &&& node.size_a is Some <==> t.a.contains_key(x) && !t.a[x].is_dir
            &&& node.size_b is Some <==> t.b.contains_key(x) && !t.b[x].is_dir
            &&& node.size_a matches Some(n) ==> n == t.a[x].size
            &&& node.size_b matches Some(n) ==> n == t.b[x].size
            &&& node.link_a <==> t.a.contains_key(x) && t.a[x].is_symlink
            &&& node.link_b <==> t.b.contains_key(x) && t.b[x].is_symlink
            &&& t.a.contains_key(x) && !t.a[x].hidden ==> !node.h
            &&& t.b.contains_key(x) && !t.b[x].hidden ==> !node.h
            &&& t.a.contains_key(x) && t.a[x].hidden && (t.b.contains_key(x) ==> t.b[x].hidden)
                ==> node.h
            &&& t.b.contains_key(x) && t.b[x].hidden && (t.a.contains_key(x) ==> t.a[x].hidden)
                ==> node.h
            &&& node.n@ == own_name(x)
        }),
{
}

/// The status of a node is that of its position, but for a folder that is the same by
/// itself and holds something that is not: that one differs. So no file, and no folder
/// that is on one side only, is ever shown otherwise than it was judged.
pub proof fn law_a_status_is_shown_as_judged(node: DiffNode, t: Listing, i: int)
    requires
        is_node(node, t, i),
        0 <= i < t.paths.len(),
    ensures
        ({
            let own = t.statuses[t.paths[i]];
            &&& own != DiffStatus::Same ==> node.s == own
            &&& node.t == 'f' ==> node.s == own
            &&& node.t == 'd' && own == DiffStatus::Same ==> (node.s == DiffStatus::Same <==> forall|
                k: int,
            |
                0 <= k < node.ch@.len() ==> (#[trigger] node.ch@[k]).s == DiffStatus::Same) && (
            node.s == DiffStatus::Same || node.s == DiffStatus::Diff)
        }),
{
    let n = t.paths.len() as int;
    let kids = belonging(t, Some(i), n);
    lemma_belonging(t, Some(i), n);
    lemma_held_is_longer(t);
    let own = t.statuses[t.paths[i]];
    if node.t == 'd' && own == DiffStatus::Same {
        assert forall|k: int| 0 <= k < node.ch@.len() implies (#[trigger] node.ch@[k]).s
            == shown_status(t, kids[k]) by {
            assert(is_node(node.ch@[k], t, kids[k]));
        }
        if exists|k: int|
            0 <= k < node.ch@.len() && (#[trigger] node.ch@[k]).s != DiffStatus::Same {
            let k = choose|k: int|
                0 <= k < node.ch@.len() && (#[trigger] node.ch@[k]).s != DiffStatus::Same;
            assert(parent_index(t, kids[k]) == Some(i));
        }
        if node.s != DiffStatus::Same {
            let c = choose|c: int|
                0 <= c < t.paths.len() && #[trigger] parent_index(t, c) == Some(i) && shown_status(
                    t,
                    c,
                ) != DiffStatus::Same;
            assert(kids.contains(c));
            let k = choose|k: int| 0 <= k < kids.len() && kids[k] == c;
            assert(node.ch@[k].s != DiffStatus::Same);
        }
    }
}

/// What a node holds stands in the order of a file manager: by name, ignoring case, and
/// by the exact name where that leaves it open.
pub proof fn law_what_a_node_holds_is_in_order(node: DiffNode, t: Listing, i: int, k: int, l: int)
    requires
        well_listed(t),
        is_node(node, t, i),
        0 <= k < l < node.ch@.len(),
    ensures
        exists|c: int, d: int|
            0 <= c < d < t.paths.len() && is_node(node.ch@[k], t, c) && is_node(node.ch@[l], t, d)
                && name_le(#[trigger] t.paths[c], #[trigger] t.paths[d]),
{
    let n = t.paths.len() as int;
    let kids = belonging(t, Some(i), n);
    lemma_belonging(t, Some(i), n);
    assert(is_node(node.ch@[k], t, kids[k]));
    assert(is_node(node.ch@[l], t, kids[l]));
    assert(name_le(t.paths[kids[k]], t.paths[kids[l]]));
}

/// Everything that a node is made of.
struct Plan<'a> {
    a: &'a PathMap<ScannedFile>,
    b: &'a PathMap<ScannedFile>,
    statuses: &'a PathMap<DiffStatus>,
    paths: Vec<String>,
    children: Vec<Vec<usize>>,
}

/// Numbers as mathematical ones.
spec fn ints(v: Seq<usize>) -> Seq<int> {
    Seq::new(v.len(), |i: int| v[i] as int)
}

impl<'a> Plan<'a> {
    spec fn listing(&self) -> Listing {
        Listing {
            paths: texts(self.paths@),
            a: self.a@,
            b: self.b@,
            statuses: self.statuses@,
        }
    }

    spec fn wf(&self) -> bool {
        &&& well_listed(self.listing())
        &&& self.children@.len() == self.paths@.len()
        &&& forall|i: int|
            0 <= i < self.paths@.len() ==> ints((#[trigger] self.children@[i])@) == belonging(
                self.listing(),
                Some(i),
                self.paths@.len() as int,
            )
    }
}

/// The last name of a position, and the position around it.
fn take_apart(path: &str) -> (r: (String, Option<String>))
    ensures
        r.0@ == own_name(path@),
        crate::text::opt_text(r.1) == around(path@),
{
    let chars = chars_of(path);
    let slash = chars_of("/");
    proof {
        reveal_strlit("/");
        lemma_rfind_to(path@, "/"@, path@.len() - "/"@.len());
    }
    let all: usize = chars.len();
    match rfind_in(&chars, &slash) {
        Some(c) => {
            assert(c < all);
            let name = slice_subrange(&chars, c + 1, all);
            let front = slice_subrange(&chars, 0, c);
            assert(name@ =~= path@.skip(c + 1));
            assert(front@ =~= path@.take(c as int));
            (string_of(name), Some(string_of(front)))
        },
        None => (path.to_owned(), None),
    }
}

/// Whether a position is hidden on the sides that have it.
fn hidden_on(a: Option<ScannedFile>, b: Option<ScannedFile>) -> (r: bool)
    ensures
        r == ((a is Some || b is Some) && (a matches Some(x) ==> x.hidden) && (b matches Some(y)
            ==> y.hidden)),
{
    match a {
        Some(x) => match b {
            Some(y) => x.hidden && y.hidden,
            None => x.hidden,
        },
        None => match b {
            Some(y) => y.hidden,
            None => false,
        },
    }
}

/// The size that a side shows.
fn shown_size(side: Option<ScannedFile>) -> (r: Option<u64>)
    ensures
        r == (match side {
            Some(f) => if f.is_dir {
                None
            } else {
                Some(f.size)
            },
            None => None,
        }),
{
    match side {
        Some(f) => if f.is_dir {
            None
        } else {
            Some(f.size)
        },
        None => None,
    }
}

/// The node of a position, everything below included.
fn assemble(plan: &Plan, i: usize) -> (r: DiffNode)
    requires
        plan.wf(),
        i < plan.paths@.len(),
    ensures
        is_node(r, plan.listing(), i as int),
    decreases longest(plan.listing().paths) - plan.paths@[i as int]@.len(),
{
    let ghost t = plan.listing();
    let ghost n = plan.paths@.len() as int;
    proof {
        lemma_held_is_longer(t);
    }
    let path = &plan.paths[i];
    assert(t.paths[i as int] == path@);
    let (name, _) = take_apart(path);
    let a = plan.a.get(path);
    let b = plan.b.get(path);
    let is_dir = match a {
        Some(f) => f.is_dir,
        None => match b {
            Some(f) => f.is_dir,
            None => false,
        },
    };
    let own = match plan.statuses.get(path) {
        Some(s) => s,
        None => DiffStatus::Same,
    };
    let kids = &plan.children[i];
    let ghost wanted = belonging(t, Some(i as int), n);
    proof {
        lemma_belonging(t, Some(i as int), n);
    }
    assert(ints(kids@) == wanted);
    let count: usize = kids.len();
    let mut ch: Vec<DiffNode> = Vec::new();
    let mut differs = false;
    for k in 0..count
        invariant
            plan.wf(),
            t == plan.listing(),
            n == plan.paths@.len(),
            i < n,
            count == kids@.len(),
            ints(kids@) == wanted,
            wanted == belonging(t, Some(i as int), n),
            forall|q: int|
                0 <= q < wanted.len() ==> 0 <= #[trigger] wanted[q] < n && parent_index(
                    t,
                    wanted[q],
                ) == Some(i as int),
            forall|c: int|
                0 <= c < t.paths.len() ==> (#[trigger] parent_index(t, c) matches Some(p)
                    ==> t.paths[p].len() < t.paths[c].len() <= longest(t.paths)),
            ch@.len() == k,
            forall|q: int| 0 <= q < k ==> is_node(#[trigger] ch@[q], t, wanted[q]),
            differs == exists|q: int|
                0 <= q < k && shown_status(t, #[trigger] wanted[q]) != DiffStatus::Same,
    {
        assert(wanted[k as int] == kids@[k as int]);
        assert(parent_index(t, wanted[k as int]) == Some(i as int));
        assert(t.paths[wanted[k as int]] == plan.paths@[kids@[k as int] as int]@);
        assert(t.paths[i as int] == plan.paths@[i as int]@);
        let node = assemble(plan, kids[k]);
        let ghost had = differs;
        if !matches!(node.s, DiffStatus::Same) {
            differs = true;
        }
        ch.push(node);
        proof {
            assert(node.s == shown_status(t, wanted[k as int]));
            if had {
                let q = choose|q: int|
                    0 <= q < k && shown_status(t, #[trigger] wanted[q]) != DiffStatus::Same;
                assert(shown_status(t, wanted[q]) != DiffStatus::Same);
            }
        }
    }
    proof {
        assert(differs <==> exists|c: int|
            0 <= c < n && #[trigger] parent_index(t, c) == Some(i as int) && shown_status(t, c)
                != DiffStatus::Same) by {
            if differs {
                let q = choose|q: int|
                    0 <= q < count && shown_status(t, #[trigger] wanted[q]) != DiffStatus::Same;
                assert(parent_index(t, wanted[q]) == Some(i as int));
            }
            if exists|c: int|
                0 <= c < n && #[trigger] parent_index(t, c) == Some(i as int) && shown_status(t, c)
                    != DiffStatus::Same {
                let c = choose|c: int|
                    0 <= c < n && #[trigger] parent_index(t, c) == Some(i as int) && shown_status(
                        t,
                        c,
                    ) != DiffStatus::Same;
                assert(wanted.contains(c));
                let q = choose|q: int| 0 <= q < wanted.len() && wanted[q] == c;
                assert(shown_status(t, wanted[q]) != DiffStatus::Same);
            }
        }
    }
    let s = if is_dir && matches!(own, DiffStatus::Same) && differs {
        DiffStatus::Diff
    } else {
        own
    };
    DiffNode {
        n: name,
        t: if is_dir {
            'd'
        } else {
            'f'
        },
        s,
        size_a: shown_size(a),
        size_b: shown_size(b),
        link_a: match a {
            Some(f) => f.is_symlink,
            None => false,
        },
        link_b: match b {
            Some(f) => f.is_symlink,
            None => false,
        },
        h: hidden_on(a, b),
        ch,
    }
}

/// The positions in the order shown, and for each number in the table the number
/// in that order.
fn by_name(statuses: &PathMap<DiffStatus>) -> (r: (Vec<String>, Vec<usize>))
    ensures
        r.0@.len() == statuses.keys().len(),
        r.1@.len() == statuses.keys().len(),
        forall|i: int, j: int|
            0 <= i < j < r.0@.len() ==> name_le((#[trigger] r.0@[i])@, (#[trigger] r.0@[j])@)
                && r.0@[i]@ != r.0@[j]@,
        forall|p: int|
            0 <= p < r.1@.len() ==> (#[trigger] r.1@[p]) < r.0@.len() && r.0@[r.1@[p] as int]@
                == statuses.keys()[p],
        forall|i: int|
            0 <= i < r.0@.len() ==> statuses@.contains_key((#[trigger] r.0@[i])@),
        lists(statuses.keys(), statuses@),
{
    let n: usize = statuses.len();
    let ghost names = statuses.keys();
    let mut keys: Vec<NameKey> = Vec::new();
    for i in 0..n
        invariant
            n == names.len(),
            names == statuses.keys(),
            keys@.len() == i,
            forall|k: int| 0 <= k < i ==> (#[trigger] keys@[k]).name() == names[k],
    {
        keys.push(NameKey::new(statuses.key_at(i)));
    }
    let idx = sorted_positions(&keys);
    proof {
        lemma_rank_order_distinct(keys@, idx@);
    }
    let mut paths: Vec<String> = Vec::new();
    let mut rank: Vec<usize> = Vec::new();
    for i in 0..n
        invariant
            rank@.len() == i,
    {
        rank.push(0);
    }
    for i in 0..n
        invariant
            n == names.len(),
            names == statuses.keys(),
            lists(names, statuses@),
            covers(idx@, 0, n as int),
            idx@.no_duplicates(),
            rank@.len() == n,
            paths@.len() == i,
            forall|k: int| 0 <= k < i ==> (#[trigger] paths@[k])@ == names[idx@[k] as int],
            forall|k: int| 0 <= k < i ==> rank@[(#[trigger] idx@[k]) as int] == k,
    {
        let at: usize = idx[i];
        paths.push(statuses.key_at(at).clone());
        let ghost before = rank@;
        rank.set(at, i);
        proof {
            assert forall|k: int| 0 <= k < i + 1 implies rank@[(#[trigger] idx@[k]) as int] == k by {
                if k < i {
                    assert(idx@[k] != idx@[i as int]);
                }
            }
        }
    }
    proof {
        assert forall|i: int, j: int| 0 <= i < j < paths@.len() implies name_le(
            (#[trigger] paths@[i])@,
            (#[trigger] paths@[j])@,
        ) && paths@[i]@ != paths@[j]@ by {
            let p = idx@[i] as int;
            let q = idx@[j] as int;
            assert(ranks_before(keys@, p, q));
            assert(keys@[p].name() == names[p]);
            assert(keys@[q].name() == names[q]);
            if p < q {
                assert(text_lt(names[p], names[q]));
            } else {
                assert(text_lt(names[q], names[p]));
            }
        }
        assert forall|p: int| 0 <= p < rank@.len() implies (#[trigger] rank@[p]) < paths@.len()
            && paths@[rank@[p] as int]@ == names[p] by {
            assert(idx@.contains(p as usize));
            let k = choose|k: int| 0 <= k < idx@.len() && idx@[k] == p as usize;
            assert(rank@[idx@[k] as int] == k);
        }
        assert forall|i: int| 0 <= i < paths@.len() implies statuses@.contains_key(
            (#[trigger] paths@[i])@,
        ) by {
            assert(statuses@.contains_key(names[idx@[i] as int]));
        }
    }
    (paths, rank)
}

/// The number of the position around another one, where it is listed.
fn find_parent(
    statuses: &PathMap<DiffStatus>,
    paths: &Vec<String>,
    rank: &Vec<usize>,
    i: usize,
    t: Ghost<Listing>,
) -> (r: Option<usize>)
    requires
        t@.paths == texts(paths@),
        t@.statuses == statuses@,
        well_listed(t@),
        i < paths@.len(),
        rank@.len() == statuses.keys().len(),
        forall|p: int|
            0 <= p < rank@.len() ==> (#[trigger] rank@[p]) < paths@.len() && paths@[rank@[p]
                as int]@ == statuses.keys()[p],
    ensures
        match r {
            Some(j) => parent_index(t@, i as int) == Some(j as int) && j < paths@.len(),
            None => parent_index(t@, i as int) is None,
        },
{
    assert(t@.paths[i as int] == paths@[i as int]@);
    let (_, above) = take_apart(&paths[i]);
    match above {
        None => None,
        Some(p) => {
            match statuses.find(&p) {
                None => {
                    proof {
                        if parent_index(t@, i as int) is Some {
                            lemma_parent_index(t@, i as int);
                            let j = parent_index(t@, i as int)->0;
                            assert(t@.statuses.contains_key(t@.paths[j]));
                        }
                    }
                    None
                },
                Some(at) => {
                    let j: usize = rank[at];
                    assert(t@.paths[j as int] == paths@[j as int]@);
                    assert(t@.paths[j as int] == p@);
                    proof {
                        law_a_listed_folder_is_found(t@, i as int, j as int);
                    }
                    Some(j)
                },
            }
        },
    }
}

/// The tree of a comparison. Folders and files stand in the order in which a file
/// manager shows them.
pub fn build_tree(
    a: &PathMap<ScannedFile>,
    b: &PathMap<ScannedFile>,
    statuses: &PathMap<DiffStatus>,
) -> (r: Vec<DiffNode>)
    ensures
        exists|t: Listing| #[trigger]
            well_listed(t) && t.a == a@ && t.b == b@ && t.statuses == statuses@ && is_forest(r@, t),
{
    let (paths, rank) = by_name(statuses);
    let n: usize = paths.len();
    let ghost t = Listing { paths: texts(paths@), a: a@, b: b@, statuses: statuses@ };
    proof {
        assert forall|i: int, j: int| 0 <= i < j < t.paths.len() implies name_le(
            #[trigger] t.paths[i],
            #[trigger] t.paths[j],
        ) && t.paths[i] != t.paths[j] by {
            assert(t.paths[i] == paths@[i]@);
            assert(t.paths[j] == paths@[j]@);
        }
        assert forall|i: int| 0 <= i < t.paths.len() implies t.statuses.contains_key(
            #[trigger] t.paths[i],
        ) by {
            assert(t.paths[i] == paths@[i]@);
        }
        assert forall|x: Seq<char>| t.statuses.contains_key(x) implies #[trigger] t.paths.contains(
            x,
        ) by {
            assert(statuses.keys().contains(x));
            let p = choose|p: int| 0 <= p < statuses.keys().len() && statuses.keys()[p] == x;
            assert(t.paths[rank@[p] as int] == paths@[rank@[p] as int]@);
        }
        assert(well_listed(t));
    }
    let mut children: Vec<Vec<usize>> = Vec::new();
    for i in 0..n
        invariant
            children@.len() == i,
            forall|k: int| 0 <= k < i ==> (#[trigger] children@[k])@.len() == 0,
    {
        children.push(Vec::new());
    }
    let mut roots: Vec<usize> = Vec::new();
    proof {
        assert(ints(roots@) =~= belonging(t, None, 0));
        assert forall|k: int| 0 <= k < n implies ints((#[trigger] children@[k])@) == belonging(
            t,
            Some(k),
            0,
        ) by {
            assert(ints(children@[k]@) =~= belonging(t, Some(k), 0));
        }
    }
    for i in 0..n
        invariant
            n == paths@.len(),
            t.paths == texts(paths@),
            t.statuses == statuses@,
            well_listed(t),
            rank@.len() == statuses.keys().len(),
            forall|p: int|
                0 <= p < rank@.len() ==> (#[trigger] rank@[p]) < paths@.len() && paths@[rank@[p]
                    as int]@ == statuses.keys()[p],
            children@.len() == n,
            ints(roots@) == belonging(t, None, i as int),
            forall|k: int|
                0 <= k < n ==> ints((#[trigger] children@[k])@) == belonging(t, Some(k), i as int),
    {
        let ghost tops = ints(roots@);
        let ghost before = children@;
        match find_parent(statuses, &paths, &rank, i, Ghost(t)) {
            Some(j) => {
                children[j].push(i);
                proof {
                    assert forall|k: int| 0 <= k < n implies ints((#[trigger] children@[k])@)
                        == belonging(t, Some(k), i as int + 1) by {
                        if k == j {
                            assert(ints(children@[k]@) =~= ints(before[k]@).push(i as int));
                        } else {
                            assert(children@[k] == before[k]);
                        }
                    }
                }
            },
            None => {
                roots.push(i);
                assert(ints(roots@) =~= tops.push(i as int));
            },
        }
    }
    let plan = Plan { a, b, statuses, paths, children };
    assert(plan.listing() == t);
    proof {
        lemma_belonging(t, None, n as int);
    }
    let ghost wanted = belonging(t, None, n as int);
    let count: usize = roots.len();
    let mut out: Vec<DiffNode> = Vec::new();
    for k in 0..count
        invariant
            plan.wf(),
            plan.listing() == t,
            n == plan.paths@.len(),
            count == roots@.len(),
            ints(roots@) == wanted,
            forall|q: int| 0 <= q < wanted.len() ==> 0 <= #[trigger] wanted[q] < n,
            out@.len() == k,
            forall|q: int| 0 <= q < k ==> is_node(#[trigger] out@[q], t, wanted[q]),
    {
        assert(wanted[k as int] == roots@[k as int]);
        out.push(assemble(&plan, roots[k]));
    }
    assert(is_forest(out@, t));
    out
}

} // verus!
