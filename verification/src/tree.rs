//! The tree that a consumer rebuilds from the events of a scan, and the
//! focus that a viewer moves through it.

use crate::event::{Event, EventModel};
use crate::path::{parsed, resolved, PathId, PathInterner};
use std::collections::HashMap;
use vstd::prelude::*;

verus! {

broadcast use vstd::std_specs::hash::group_hash_axioms;

/// What is known of one path, as contracts speak of it.
pub struct Node {
    /// The directory that holds the path; none for the root.
    pub parent: Option<PathId>,
    /// The entries reported under the path, first come first.
    pub children: Seq<PathId>,
    /// The size in bytes; none until something was measured.
    pub size: Option<u64>,
    /// The number of files counted under the path.
    pub files: usize,
    /// Whether the path was reported as a file.
    pub is_file: bool,
}

/// What is known of one path.
#[derive(Debug)]
pub struct PathSlot {
    /// The directory that holds the path; none for the root.
    pub parent: Option<PathId>,
    /// The entries reported under the path, first come first.
    pub children: Vec<PathId>,
    /// The size in bytes; none until something was measured.
    pub size: Option<u64>,
    /// The number of files counted under the path.
    pub files: usize,
    /// Whether the path was reported as a file.
    pub is_file: bool,
}

impl View for PathSlot {
    type V = Node;

    open spec fn view(&self) -> Node {
        Node {
            parent: self.parent,
            children: self.children@,
            size: self.size,
            files: self.files,
            is_file: self.is_file,
        }
    }
}

/// The node of a path that nothing was said about yet.
pub open spec fn blank() -> Node {
    Node { parent: None, children: Seq::empty(), size: None, files: 0, is_file: false }
}

/// The key under which the tree keeps a path: its id's number, and zero for
/// the root, which has no id.
pub open spec fn key(id: Option<PathId>) -> usize {
    match id {
        Some(id) => id@,
        None => 0,
    }
}

/// The node kept under `k`, blank where there is none.
pub open spec fn node_at(nodes: Map<usize, Node>, k: usize) -> Node {
    if nodes.contains_key(k) {
        nodes[k]
    } else {
        blank()
    }
}

/// The size that counts for a node whose size may be unknown.
pub open spec fn known(size: Option<u64>) -> u64 {
    match size {
        Some(s) => s,
        None => 0,
    }
}

/// `nodes` after `child` was appended to the children of `parent`.
pub open spec fn adopted(nodes: Map<usize, Node>, parent: Option<PathId>, child: PathId) -> Map<
    usize,
    Node,
> {
    let p = node_at(nodes, key(parent));
    nodes.insert(key(parent), Node { children: p.children.push(child), ..p })
}

/// `nodes` after `child` was appended to the children of `parent` unless it is
/// among them already.
pub open spec fn adopted_once(
    nodes: Map<usize, Node>,
    parent: Option<PathId>,
    child: PathId,
) -> Map<usize, Node> {
    let p = node_at(nodes, key(parent));
    if p.children.contains(child) {
        nodes.insert(key(parent), p)
    } else {
        adopted(nodes, parent, child)
    }
}

/// Whether the running totals of `parent` can take `size` bytes and `files`
/// files more.
pub open spec fn has_room(
    nodes: Map<usize, Node>,
    parent: Option<PathId>,
    size: u64,
    files: usize,
) -> bool {
    let p = node_at(nodes, key(parent));
    known(p.size) + size <= u64::MAX && p.files + files <= usize::MAX
}

/// `nodes` after `size` bytes and `files` files were added to the running
/// totals of `parent`.
pub open spec fn grown(
    nodes: Map<usize, Node>,
    parent: Option<PathId>,
    size: u64,
    files: usize,
) -> Map<usize, Node> {
    let p = node_at(nodes, key(parent));
    nodes.insert(
        key(parent),
        Node { size: Some((known(p.size) + size) as u64), files: (p.files + files) as usize, ..p },
    )
}

/// `nodes` just before an event's totals are added to its parent, and that
/// parent.
pub open spec fn staged(nodes: Map<usize, Node>, event: Event) -> (Map<usize, Node>, Option<PathId>) {
    match event {
        EventModel::Dir { path, parent } => {
            let with_parent = adopted(nodes, parent, path);
            (with_parent.insert(path@, Node { parent, ..node_at(with_parent, path@) }), parent)
        },
        EventModel::FileFinish { path, parent, size } => {
            let with_parent = adopted_once(nodes, parent, path);
            (
                with_parent.insert(
                    path@,
                    Node { parent, size: Some(size), is_file: true, ..node_at(with_parent, path@) },
                ),
                parent,
            )
        },
        EventModel::DirFinish { path, .. } => {
            let node = node_at(nodes, path@);
            (nodes.insert(path@, node), node.parent)
        },
    }
}

/// Whether the tree can take an event: the totals of the event's parent must
/// have room for what the event adds to them.
pub open spec fn accepts(nodes: Map<usize, Node>, event: Event) -> bool {
    let (before, parent) = staged(nodes, event);
    match event {
        EventModel::Dir { .. } => true,
        EventModel::FileFinish { size, .. } => has_room(before, parent, size, 1),
        EventModel::DirFinish { size, num_files, .. } => has_room(before, parent, size, num_files),
    }
}

/// `nodes` after an event.
///
/// A found directory is appended to its parent's children and remembers its
/// parent. A finished file does the same, unless the parent lists it already,
/// takes its size, and adds that size and one file to its parent's running
/// totals. A finished directory adds its totals to those of its parent, and
/// takes them in place of whatever it had summed up so far.
pub open spec fn applied(nodes: Map<usize, Node>, event: Event) -> Map<usize, Node> {
    let (before, parent) = staged(nodes, event);
    match event {
        EventModel::Dir { .. } => before,
        EventModel::FileFinish { size, .. } => grown(before, parent, size, 1),
        EventModel::DirFinish { path, size, num_files } => {
            let summed = grown(before, parent, size, num_files);
            summed.insert(path@, Node { size: Some(size), files: num_files, ..node_at(summed, path@) })
        },
    }
}

/// Whether a change of the node under `k` concerns the focus: `k` is the
/// focused node or its parent.
pub open spec fn watched(nodes: Map<usize, Node>, focus: Option<PathId>, k: usize) -> bool {
    k == key(focus) || (focus is Some && k == key(node_at(nodes, key(focus)).parent))
}

/// Whether an event touches the focused node or its parent. An event touches
/// the node it is about and that node's parent.
pub open spec fn affects(nodes: Map<usize, Node>, focus: Option<PathId>, event: Event) -> bool {
    watched(nodes, focus, crate::event::subject(event)@) || watched(
        nodes,
        focus,
        key(staged(nodes, event).1),
    )
}

/// A share of a whole, kept as the two sizes in bytes that it divides. The
/// whole is never zero.
#[derive(Debug, Clone, Copy, PartialEq, Eq)]
pub struct Ratio {
    /// The size that is measured.
    pub part: u64,
    /// The size that it is measured against.
    pub whole: u64,
}

impl Ratio {
    /// Whether this share is greater than `other`.
    pub open spec fn above(self, other: Ratio) -> bool {
        self.part * other.whole > other.part * self.whole
    }

    /// Whether the share is a number from zero to one.
    pub open spec fn proper(self) -> bool {
        self.whole >= 1 && self.part <= self.whole
    }

    /// Whether this share is greater than `other`.
    pub fn is_above(&self, other: &Ratio) -> (b: bool)
        ensures
            b == self.above(*other),
    {
        assert(self.part * other.whole <= u64::MAX * u64::MAX) by (nonlinear_arith)
            requires
                self.part <= u64::MAX,
                other.whole <= u64::MAX,
        ;
        assert(other.part * self.whole <= u64::MAX * u64::MAX) by (nonlinear_arith)
            requires
                other.part <= u64::MAX,
                self.whole <= u64::MAX,
        ;
        (self.part as u128) * (other.whole as u128) > (other.part as u128) * (self.whole as u128)
    }
}

/// One row of a view, as contracts speak of it.
pub struct RankView {
    /// The number of the path's id; zero for the root.
    pub path_id: usize,
    /// The path written out; empty for the root and for an id without a path.
    pub path: Seq<char>,
    /// The size in bytes, where one is known.
    pub size: Option<u64>,
    /// The share of the parent's size.
    pub ratio: Ratio,
    /// The share of the root's size.
    pub all_ratio: Ratio,
    /// Whether the path was reported as a file.
    pub is_file: bool,
}

/// One row of a view: a path with its size and its shares.
#[derive(Debug)]
pub struct Rank {
    /// The number of the path's id; zero for the root.
    pub path_id: usize,
    /// The path written out; empty for the root and for an id without a path.
    pub path: String,
    /// The size in bytes, where one is known.
    pub size: Option<u64>,
    /// The share of the parent's size.
    pub ratio: Ratio,
    /// The share of the root's size.
    pub all_ratio: Ratio,
    /// Whether the path was reported as a file.
    pub is_file: bool,
}

impl View for Rank {
    type V = RankView;

    open spec fn view(&self) -> RankView {
        RankView {
            path_id: self.path_id,
            path: self.path@,
            size: self.size,
            ratio: self.ratio,
            all_ratio: self.all_ratio,
            is_file: self.is_file,
        }
    }
}

/// What a viewer shows, as contracts speak of it.
pub struct SnapshotView {
    /// The focused node; none where the tree has no such node.
    pub current: Option<RankView>,
    /// The children of the focused node, the greatest share first.
    pub children: Seq<RankView>,
}

/// What a viewer shows: the focused node and its children by rank.
#[derive(Debug)]
pub struct Snapshot {
    /// The focused node; none where the tree has no such node.
    pub current: Option<Rank>,
    /// The children of the focused node, the greatest share first.
    pub children: Vec<Rank>,
}

/// The rows of a list as contracts speak of them.
pub open spec fn rows_of(ranks: Seq<Rank>) -> Seq<RankView> {
    ranks.map_values(|rank: Rank| rank@)
}

impl View for Snapshot {
    type V = SnapshotView;

    open spec fn view(&self) -> SnapshotView {
        SnapshotView {
            current: match self.current {
                Some(rank) => Some(rank@),
                None => None,
            },
            children: rows_of(self.children@),
        }
    }
}

/// A command of the viewer.
#[derive(Debug)]
pub enum UiEvent {
    /// Look at the parent of the focused node.
    GotoParent,
    /// Look at the node whose id is written in the string.
    GotoPath(String),
}

/// The size that the shares of the whole tree are measured against: the
/// root's size where it is known and not zero, else one.
pub open spec fn root_size(nodes: Map<usize, Node>) -> u64 {
    let size = known(node_at(nodes, 0).size);
    if size == 0 {
        1
    } else {
        size
    }
}

/// The share that `size` is of `of`: zero where either is unknown or `of` is
/// zero.
pub open spec fn share(size: Option<u64>, of: Option<u64>) -> Ratio {
    match (size, of) {
        (Some(s), Some(w)) => if w > 0 {
            Ratio { part: s, whole: w }
        } else {
            Ratio { part: 0, whole: 1 }
        },
        _ => Ratio { part: 0, whole: 1 },
    }
}

/// The path that `items` has for `id`, written out; empty where it has none.
pub open spec fn path_text(items: Seq<Seq<char>>, id: Option<PathId>) -> Seq<char> {
    match id {
        Some(id) => match resolved(items, id@ as int) {
            Some(path) => path,
            None => Seq::empty(),
        },
        None => Seq::empty(),
    }
}

/// The size of the node above the focused one: unknown for the root, which
/// has nothing above it.
pub open spec fn size_above(nodes: Map<usize, Node>, focus: Option<PathId>) -> Option<u64> {
    match focus {
        Some(_) => node_at(nodes, key(node_at(nodes, key(focus)).parent)).size,
        None => None,
    }
}

/// The row of the focused node.
pub open spec fn current_row(
    nodes: Map<usize, Node>,
    focus: Option<PathId>,
    items: Seq<Seq<char>>,
) -> RankView {
    let node = node_at(nodes, key(focus));
    RankView {
        path_id: key(focus),
        path: path_text(items, focus),
        size: node.size,
        ratio: share(node.size, size_above(nodes, focus)),
        all_ratio: Ratio { part: known(node.size), whole: root_size(nodes) },
        is_file: node.is_file,
    }
}

/// The row of one child of the focused node. A child of unknown size counts
/// as empty.
pub open spec fn child_row(
    nodes: Map<usize, Node>,
    focus: Option<PathId>,
    child: PathId,
    items: Seq<Seq<char>>,
) -> RankView {
    let node = node_at(nodes, child@);
    RankView {
        path_id: child@,
        path: path_text(items, Some(child)),
        size: Some(known(node.size)),
        ratio: share(Some(known(node.size)), node_at(nodes, key(focus)).size),
        all_ratio: Ratio { part: known(node.size), whole: root_size(nodes) },
        is_file: node.is_file,
    }
}

/// The rows of the children of the focused node, in the order in which the
/// children were reported.
pub open spec fn child_rows(
    nodes: Map<usize, Node>,
    focus: Option<PathId>,
    items: Seq<Seq<char>>,
) -> Seq<RankView> {
    let children = node_at(nodes, key(focus)).children;
    Seq::new(children.len(), |i: int| child_row(nodes, focus, children[i], items))
}

/// A ranked list with one more row: the row stands behind every row whose
/// share of the parent is not smaller than its own.
pub open spec fn placed(sorted: Seq<RankView>, row: RankView) -> Seq<RankView>
    decreases sorted.len(),
{
    if sorted.len() > 0 && row.ratio.above(sorted.last().ratio) {
        placed(sorted.drop_last(), row).push(sorted.last())
    } else {
        sorted.push(row)
    }
}

/// The rows by rank: the greatest share of the parent first, and rows of
/// equal share in the order in which they came.
pub open spec fn ranked(rows: Seq<RankView>) -> Seq<RankView>
    decreases rows.len(),
{
    if rows.len() == 0 {
        rows
    } else {
        placed(ranked(rows.drop_last()), rows.last())
    }
}

/// What the viewer shows of a tree focused on `focus`: nothing where the tree
/// has no node for the focus.
pub open spec fn snapshot(
    nodes: Map<usize, Node>,
    focus: Option<PathId>,
    items: Seq<Seq<char>>,
) -> SnapshotView {
    if nodes.contains_key(key(focus)) {
        SnapshotView {
            current: Some(current_row(nodes, focus, items)),
            children: ranked(child_rows(nodes, focus, items)),
        }
    } else {
        SnapshotView { current: None, children: Seq::empty() }
    }
}

/// Where a command moves the focus. The parent of the root is the root. A
/// string that writes no id, or the id of a path that the tree has no node
/// for, leads to the root.
pub open spec fn moved(nodes: Map<usize, Node>, focus: Option<PathId>, event: UiEvent) -> Option<
    PathId,
> {
    match event {
        UiEvent::GotoParent => match focus {
            Some(id) => node_at(nodes, id@).parent,
            None => None,
        },
        UiEvent::GotoPath(raw) => match parsed(raw@) {
            Some(n) => if nodes.contains_key(n) {
                Some(PathId::of(n))
            } else {
                None
            },
            None => None,
        },
    }
}

/// At the root, the command to go to the parent leaves the focus where it is.
pub proof fn lemma_root_has_no_parent(nodes: Map<usize, Node>)
    ensures
        moved(nodes, None, UiEvent::GotoParent) is None,
{
}

/// What holds of the shares in a row whose size is measured against `of` and
/// against the root's size `root`: both are numbers, the share of the parent
/// is zero where the parent's size is unknown or zero, and each share lies
/// between zero and one where the size is not greater than what it is
/// measured against.
pub open spec fn shares_sound(row: RankView, of: Option<u64>, root: u64) -> bool {
    &&& row.ratio.whole >= 1
    &&& row.all_ratio.whole >= 1
    &&& (of is None || of == Some(0u64)) ==> row.ratio.part == 0
    &&& (of matches Some(w) && known(row.size) <= w) ==> row.ratio.proper()
    &&& known(row.size) <= root ==> row.all_ratio.proper()
}

/// A ranked list with one more row is the list with that row put in
/// somewhere.
proof fn lemma_placed_inserts(sorted: Seq<RankView>, row: RankView) -> (at: int)
    ensures
        0 <= at <= sorted.len(),
        placed(sorted, row) == sorted.insert(at, row),
    decreases sorted.len(),
{
    if sorted.len() > 0 && row.ratio.above(sorted.last().ratio) {
        let at = lemma_placed_inserts(sorted.drop_last(), row);
        assert(sorted.drop_last().insert(at, row).push(sorted.last()) =~= sorted.insert(at, row));
        at
    } else {
        assert(sorted.push(row) =~= sorted.insert(sorted.len() as int, row));
        sorted.len() as int
    }
}

/// A ranked list with one more row holds that row and what it held.
proof fn lemma_placed_permutes(sorted: Seq<RankView>, row: RankView)
    ensures
        placed(sorted, row).len() == sorted.len() + 1,
        placed(sorted, row).to_multiset() == sorted.to_multiset().insert(row),
    decreases sorted.len(),
{
    broadcast use vstd::seq_lib::to_multiset_build;

    if sorted.len() > 0 && row.ratio.above(sorted.last().ratio) {
        let head = sorted.drop_last();
        lemma_placed_permutes(head, row);
        assert(head.push(sorted.last()) =~= sorted);
        assert(head.to_multiset().insert(row).insert(sorted.last()) =~= head.to_multiset().insert(
            sorted.last(),
        ).insert(row));
    }
}

/// Ranking neither adds a row nor drops one.
pub proof fn lemma_ranked_permutes(rows: Seq<RankView>)
    ensures
        ranked(rows).len() == rows.len(),
        ranked(rows).to_multiset() == rows.to_multiset(),
    decreases rows.len(),
{
    broadcast use vstd::seq_lib::to_multiset_build;

    if rows.len() > 0 {
        let head = rows.drop_last();
        lemma_ranked_permutes(head);
        lemma_placed_permutes(ranked(head), rows.last());
        assert(head.push(rows.last()) =~= rows);
    }
}

/// Whether no row of the list has a greater share than a row before it.
pub open spec fn descending(rows: Seq<RankView>) -> bool {
    forall|i: int, j: int|
        0 <= i < j < rows.len() ==> !(#[trigger] rows[j]).ratio.above((#[trigger] rows[i]).ratio)
}

/// Whether every share of the parent in the list is a number.
pub open spec fn measured(rows: Seq<RankView>) -> bool {
    forall|i: int| 0 <= i < rows.len() ==> (#[trigger] rows[i]).ratio.whole >= 1
}

/// A share that is not greater than a second, which is not greater than a
/// third, is not greater than the third.
proof fn lemma_not_above_chains(a: Ratio, b: Ratio, c: Ratio)
    requires
        a.whole >= 1,
        b.whole >= 1,
        c.whole >= 1,
        !c.above(b),
        !b.above(a),
    ensures
        !c.above(a),
{
    let (ap, aw, bp, bw, cp, cw) = (
        a.part as int,
        a.whole as int,
        b.part as int,
        b.whole as int,
        c.part as int,
        c.whole as int,
    );
    assert(cp * aw <= ap * cw) by (nonlinear_arith)
        requires
            cp * bw <= bp * cw,
            bp * aw <= ap * bw,
            aw >= 1,
            bw >= 1,
            cw >= 1,
            ap >= 0,
            bp >= 0,
            cp >= 0,
    {
        assert((cp * bw) * aw <= (bp * cw) * aw);
        assert((bp * aw) * cw <= (ap * bw) * cw);
        assert((cp * aw) * bw <= (ap * cw) * bw);
    }
}

/// A row put into a list that goes from the greatest share down leaves it so.
proof fn lemma_placed_descends(sorted: Seq<RankView>, row: RankView)
    requires
        descending(sorted),
        measured(sorted),
        row.ratio.whole >= 1,
    ensures
        descending(placed(sorted, row)),
        measured(placed(sorted, row)),
    decreases sorted.len(),
{
    let out = placed(sorted, row);
    if sorted.len() > 0 && row.ratio.above(sorted.last().ratio) {
        let head = sorted.drop_last();
        let last = sorted.last();
        lemma_placed_descends(head, row);
        let at = lemma_placed_inserts(head, row);
        let inner = placed(head, row);
        assert forall|i: int, j: int| 0 <= i < j < out.len() implies !(#[trigger] out[j]).ratio.above(
            (#[trigger] out[i]).ratio,
        ) by {
            if j < inner.len() {
                assert(out[i] == inner[i] && out[j] == inner[j]);
            } else {
                assert(out[j] == last);
                assert(out[i] == inner[i]);
                if i < at {
                    assert(inner[i] == sorted[i]);
                } else if i > at {
                    assert(inner[i] == sorted[i - 1]);
                }
            }
        }
        assert forall|i: int| 0 <= i < out.len() implies (#[trigger] out[i]).ratio.whole >= 1 by {
            if i < inner.len() {
                assert(out[i] == inner[i]);
            } else {
                assert(out[i] == last);
            }
        }
    } else {
        assert forall|i: int, j: int| 0 <= i < j < out.len() implies !(#[trigger] out[j]).ratio.above(
            (#[trigger] out[i]).ratio,
        ) by {
            if j < sorted.len() {
                assert(out[i] == sorted[i] && out[j] == sorted[j]);
            } else {
                assert(out[j] == row);
                assert(out[i] == sorted[i]);
                let last = sorted.last();
                if i < sorted.len() - 1 {
                    assert(out[i] == sorted[i] && last == sorted[sorted.len() - 1]);
                    lemma_not_above_chains(sorted[i].ratio, last.ratio, row.ratio);
                }
            }
        }
        assert forall|i: int| 0 <= i < out.len() implies (#[trigger] out[i]).ratio.whole >= 1 by {
            if i < sorted.len() {
                assert(out[i] == sorted[i]);
            }
        }
    }
}

/// The ranked rows go from the greatest share of the parent down.
pub proof fn lemma_ranked_descends(rows: Seq<RankView>)
    requires
        measured(rows),
    ensures
        descending(ranked(rows)),
        measured(ranked(rows)),
    decreases rows.len(),
{
    if rows.len() > 0 {
        let head = rows.drop_last();
        assert forall|i: int| 0 <= i < head.len() implies (#[trigger] head[i]).ratio.whole >= 1 by {
            assert(head[i] == rows[i]);
        }
        lemma_ranked_descends(head);
        assert(rows.last() == rows[rows.len() - 1]);
        lemma_placed_descends(ranked(head), rows.last());
    }
}

/// Rows that go from the greatest share down already are ranked as they
/// stand: rows of equal share keep the order in which they came.
pub proof fn lemma_ranked_keeps_order(rows: Seq<RankView>)
    requires
        descending(rows),
    ensures
        ranked(rows) == rows,
    decreases rows.len(),
{
    if rows.len() > 0 {
        let head = rows.drop_last();
        assert forall|i: int, j: int| 0 <= i < j < head.len() implies !(#[trigger] head[j]).ratio.above(
            (#[trigger] head[i]).ratio,
        ) by {
            assert(head[i] == rows[i] && head[j] == rows[j]);
        }
        lemma_ranked_keeps_order(head);
        if head.len() > 0 {
            assert(head.last() == rows[rows.len() - 2]);
            assert(rows.last() == rows[rows.len() - 1]);
        }
        assert(head.push(rows.last()) =~= rows);
    }
}

/// Every share in a view is a number. The share of the parent is zero where
/// the parent's size is unknown or zero. A share lies between zero and one
/// where the size is not greater than the size that it is measured against.
pub proof fn lemma_view_shares(nodes: Map<usize, Node>, focus: Option<PathId>, items: Seq<Seq<char>>)
    ensures
        ({
            let view = snapshot(nodes, focus, items);
            &&& view.current matches Some(row) ==> shares_sound(
                row,
                size_above(nodes, focus),
                root_size(nodes),
            )
            &&& forall|i: int|
                0 <= i < view.children.len() ==> shares_sound(
                    #[trigger] view.children[i],
                    node_at(nodes, key(focus)).size,
                    root_size(nodes),
                )
        }),
{
    let view = snapshot(nodes, focus, items);
    if nodes.contains_key(key(focus)) {
        let rows = child_rows(nodes, focus, items);
        lemma_ranked_permutes(rows);
        assert forall|i: int| 0 <= i < view.children.len() implies shares_sound(
            #[trigger] view.children[i],
            node_at(nodes, key(focus)).size,
            root_size(nodes),
        ) by {
            let row = view.children[i];
            assert(ranked(rows).contains(row));
            ranked(rows).to_multiset_ensures();
            rows.to_multiset_ensures();
            assert(ranked(rows).to_multiset().count(row) > 0);
            assert(rows.to_multiset().count(row) > 0);
            assert(rows.contains(row));
            let j = choose|j: int| 0 <= j < rows.len() && rows[j] == row;
            assert(row == child_row(nodes, focus, node_at(nodes, key(focus)).children[j], items));
        }
    }
}

/// Where the row stands in a ranked list is the place behind which every row
/// has a smaller share and before which the next row has not.
proof fn lemma_placed_at(sorted: Seq<RankView>, row: RankView, at: int)
    requires
        0 <= at <= sorted.len(),
        forall|j: int| at <= j < sorted.len() ==> row.ratio.above(#[trigger] sorted[j].ratio),
        at > 0 ==> !row.ratio.above(sorted[at - 1].ratio),
    ensures
        placed(sorted, row) == sorted.insert(at, row),
    decreases sorted.len(),
{
    if at == sorted.len() {
        assert(sorted.push(row) =~= sorted.insert(at, row));
    } else {
        assert(row.ratio.above(sorted[sorted.len() - 1].ratio));
        lemma_placed_at(sorted.drop_last(), row, at);
        assert(sorted.drop_last().insert(at, row).push(sorted.last()) =~= sorted.insert(at, row));
    }
}

/// Puts a row into a ranked list: see `placed`.
fn place(out: &mut Vec<Rank>, row: Rank)
    ensures
        rows_of(final(out)@) == placed(rows_of(old(out)@), row@),
{
    let mut at = out.len();
    while at > 0 && row.ratio.is_above(&out[at - 1].ratio)
        invariant
            at <= out.len(),
            forall|j: int| at <= j < out.len() ==> row@.ratio.above(#[trigger] rows_of(out@)[j].ratio),
        decreases at,
    {
        at -= 1;
    }
    proof {
        lemma_placed_at(rows_of(out@), row@, at as int);
    }
    out.insert(at, row);
    assert(rows_of(out@) =~= rows_of(old(out)@).insert(at as int, row@));
}

/// The executable form of `share`.
fn share_of(size: Option<u64>, of: Option<u64>) -> (ratio: Ratio)
    ensures
        ratio == share(size, of),
{
    match (size, of) {
        (Some(s), Some(w)) => if w > 0 {
            Ratio { part: s, whole: w }
        } else {
            Ratio { part: 0, whole: 1 }
        },
        _ => Ratio { part: 0, whole: 1 },
    }
}

/// The executable form of `key`.
fn key_of(id: Option<PathId>) -> (k: usize)
    ensures
        k == key(id),
{
    match id {
        Some(id) => id.into_raw(),
        None => 0,
    }
}

/// Whether `child` is among `children`.
fn lists(children: &Vec<PathId>, child: PathId) -> (found: bool)
    ensures
        found == children@.contains(child),
{
    let mut i: usize = 0;
    while i < children.len()
        invariant
            i <= children.len(),
            forall|j: int| 0 <= j < i ==> children@[j] != child,
        decreases children.len() - i,
    {
        if children[i] == child {
            return true;
        }
        i += 1;
    }
    false
}

impl PathSlot {
    /// The slot of a path that nothing was said about yet.
    pub fn new() -> (slot: Self)
        ensures
            slot@ == blank(),
    {
        PathSlot { parent: None, children: Vec::new(), size: None, files: 0, is_file: false }
    }
}

/// The tree of paths that the events of a scan have told of so far, with the
/// path that a viewer looks at.
pub struct PathTree {
    paths: HashMap<usize, PathSlot>,
    focus: Option<PathId>,
    focus_affected: bool,
}

impl PathTree {
    /// The nodes of the tree, each under its key.
    pub closed spec fn nodes(&self) -> Map<usize, Node> {
        self.paths@.map_values(|slot: PathSlot| slot@)
    }

    /// The path that the viewer looks at; none is the root.
    pub closed spec fn focused(&self) -> Option<PathId> {
        self.focus
    }

    /// Whether something changed that the viewer has not been told yet.
    pub closed spec fn pending(&self) -> bool {
        self.focus_affected
    }

    /// A tree without nodes, focused on the root.
    pub fn new() -> (tree: Self)
        ensures
            tree.nodes() == Map::<usize, Node>::empty(),
            tree.focused() is None,
            !tree.pending(),
    {
        let tree = PathTree { paths: HashMap::new(), focus: None, focus_affected: false };
        assert(tree.nodes() =~= Map::<usize, Node>::empty());
        tree
    }

    /// The path that the viewer looks at; none is the root.
    pub fn focus(&self) -> (focus: Option<PathId>)
        ensures
            focus == self.focused(),
    {
        self.focus
    }

    /// Whether something changed that the viewer has not been told yet.
    pub fn is_focus_affected(&self) -> (pending: bool)
        ensures
            pending == self.pending(),
    {
        self.focus_affected
    }

    /// What the tree knows of a path; none where it was never told of it.
    pub fn slot(&self, id: Option<PathId>) -> (slot: Option<&PathSlot>)
        ensures
            match slot {
                Some(s) => self.nodes().contains_key(key(id)) && s@ == self.nodes()[key(id)],
                None => !self.nodes().contains_key(key(id)),
            },
    {
        let k = key_of(id);
        self.paths.get(&k)
    }

    /// Takes the slot under `k` out of the table, or a new one where the
    /// table has none.
    fn take(&mut self, k: usize) -> (slot: PathSlot)
        ensures
            slot@ == node_at(old(self).nodes(), k),
            final(self).nodes() == old(self).nodes().remove(k),
            final(self).focused() == old(self).focused(),
            final(self).pending() == old(self).pending(),
    {
        let found = self.paths.remove(&k);
        assert(self.nodes() =~= old(self).nodes().remove(k));
        match found {
            Some(slot) => slot,
            None => PathSlot::new(),
        }
    }

    /// Puts a slot into the table under `k`.
    fn put(&mut self, k: usize, slot: PathSlot)
        ensures
            final(self).nodes() == old(self).nodes().insert(k, slot@),
            final(self).focused() == old(self).focused(),
            final(self).pending() == old(self).pending(),
    {
        self.paths.insert(k, slot);
        assert(self.nodes() =~= old(self).nodes().insert(k, slot@));
    }

    /// Notes that the node under `k` changed.
    fn touch(&mut self, k: usize)
        ensures
            final(self).nodes() == old(self).nodes(),
            final(self).focused() == old(self).focused(),
            final(self).pending() == (old(self).pending() || watched(
                old(self).nodes(),
                old(self).focused(),
                k,
            )),
    {
        if !self.focus_affected {
            let at = key_of(self.focus);
            if at == k {
                self.focus_affected = true;
            } else if self.focus.is_some() {
                let above = match self.paths.get(&at) {
                    Some(slot) => key_of(slot.parent),
                    None => 0,
                };
                if above == k {
                    self.focus_affected = true;
                }
            }
        }
    }

    /// Adds `size` bytes and `num_files` files to the running totals of
    /// `parent_id`, whose node is made if there is none.
    pub fn update_parent_size(&mut self, parent_id: Option<PathId>, size: u64, num_files: usize)
        requires
            has_room(old(self).nodes(), parent_id, size, num_files),
        ensures
            final(self).nodes() == grown(old(self).nodes(), parent_id, size, num_files),
            final(self).focused() == old(self).focused(),
            final(self).pending() == (old(self).pending() || watched(
                old(self).nodes(),
                old(self).focused(),
                key(parent_id),
            )),
    {
        self.touch(key_of(parent_id));
        self.grow(parent_id, size, num_files);
    }

    /// Adds to the running totals of `parent_id` without a word to the
    /// viewer.
    fn grow(&mut self, parent_id: Option<PathId>, size: u64, num_files: usize)
        requires
            has_room(old(self).nodes(), parent_id, size, num_files),
        ensures
            final(self).nodes() == grown(old(self).nodes(), parent_id, size, num_files),
            final(self).focused() == old(self).focused(),
            final(self).pending() == old(self).pending(),
    {
        let k = key_of(parent_id);
        let mut parent = self.take(k);
        let sum = match parent.size {
            Some(s) => s,
            None => 0,
        };
        parent.size = Some(sum + size);
        parent.files = parent.files + num_files;
        self.put(k, parent);
        assert(self.nodes() =~= grown(old(self).nodes(), parent_id, size, num_files));
    }

    /// The parent that the tree has on record for `path`.
    fn parent_of(&self, path: PathId) -> (parent: Option<PathId>)
        ensures
            parent == node_at(self.nodes(), path@).parent,
    {
        let k = path.into_raw();
        match self.paths.get(&k) {
            Some(slot) => slot.parent,
            None => None,
        }
    }

    /// The size and the number of files that the tree has summed up for
    /// `id`.
    fn totals_of(&self, id: Option<PathId>) -> (totals: (u64, usize))
        ensures
            totals.0 == known(node_at(self.nodes(), key(id)).size),
            totals.1 == node_at(self.nodes(), key(id)).files,
    {
        let k = key_of(id);
        match self.paths.get(&k) {
            Some(slot) => (
                match slot.size {
                    Some(s) => s,
                    None => 0,
                },
                slot.files,
            ),
            None => (0, 0),
        }
    }

    /// Whether the tree can take `event`: see `accepts`.
    pub fn can_take(&self, event: &Event) -> (ok: bool)
        ensures
            ok == accepts(self.nodes(), *event),
    {
        match *event {
            EventModel::Dir { .. } => true,
            EventModel::FileFinish { path, parent, size } => {
                if key_of(parent) == path.into_raw() {
                    let (_, files) = self.totals_of(parent);
                    size <= u64::MAX - size && files < usize::MAX
                } else {
                    let (sum, files) = self.totals_of(parent);
                    size <= u64::MAX - sum && files < usize::MAX
                }
            },
            EventModel::DirFinish { path, size, num_files } => {
                let parent = self.parent_of(path);
                let (sum, files) = self.totals_of(parent);
                size <= u64::MAX - sum && num_files <= usize::MAX - files
            },
        }
    }

    /// Takes one event of the scan into the tree: see `applied`. The viewer
    /// is owed a new view where the event touches the focused node or its
    /// parent.
    pub fn process_change(&mut self, event: Event)
        requires
            accepts(old(self).nodes(), event),
        ensures
            final(self).nodes() == applied(old(self).nodes(), event),
            final(self).focused() == old(self).focused(),
            final(self).pending() == (old(self).pending() || affects(
                old(self).nodes(),
                old(self).focused(),
                event,
            )),
    {
        match event {
            EventModel::Dir { path, parent } => {
                let k = path.into_raw();
                self.touch(k);
                self.touch(key_of(parent));

                let mut parent_cell = self.take(key_of(parent));
                parent_cell.children.push(path);
                self.put(key_of(parent), parent_cell);
                assert(self.nodes() =~= adopted(old(self).nodes(), parent, path));

                let mut child = self.take(k);
                child.parent = parent;
                self.put(k, child);
                assert(self.nodes() =~= applied(old(self).nodes(), event));
            },
            EventModel::FileFinish { path, parent, size } => {
                let k = path.into_raw();
                self.touch(k);
                self.touch(key_of(parent));

                let mut parent_cell = self.take(key_of(parent));
                if !lists(&parent_cell.children, path) {
                    parent_cell.children.push(path);
                }
                self.put(key_of(parent), parent_cell);
                assert(self.nodes() =~= adopted_once(old(self).nodes(), parent, path));

                let mut child = self.take(k);
                child.size = Some(size);
                child.parent = parent;
                child.is_file = true;
                self.put(k, child);
                assert(self.nodes() =~= staged(old(self).nodes(), event).0);

                self.grow(parent, size, 1);
            },
            EventModel::DirFinish { path, size, num_files } => {
                let k = path.into_raw();
                let parent = self.parent_of(path);
                self.touch(k);
                self.touch(key_of(parent));

                let child = self.take(k);
                self.put(k, child);
                assert(self.nodes() =~= staged(old(self).nodes(), event).0);

                self.grow(parent, size, num_files);

                let mut child = self.take(k);
                child.size = Some(size);
                child.files = num_files;
                self.put(k, child);
                assert(self.nodes() =~= applied(old(self).nodes(), event));
            },
        }
    }

    /// Takes one event of the scan into the tree where the tree can take it,
    /// and says whether it did; a tree that cannot stays as it is.
    pub fn try_process_change(&mut self, event: Event) -> (done: bool)
        ensures
            done == accepts(old(self).nodes(), event),
            done ==> final(self).nodes() == applied(old(self).nodes(), event),
            !done ==> final(self).nodes() == old(self).nodes(),
            final(self).focused() == old(self).focused(),
            final(self).pending() == (old(self).pending() || (done && affects(
                old(self).nodes(),
                old(self).focused(),
                event,
            ))),
    {
        if self.can_take(&event) {
            self.process_change(event);
            true
        } else {
            false
        }
    }
    /// The size that the shares of the whole tree are measured against.
    fn root_total(&self) -> (size: u64)
        ensures
            size == root_size(self.nodes()),
    {
        let (size, _) = self.totals_of(None);
        if size == 0 {
            1
        } else {
            size
        }
    }

    /// Tells the viewer what it shows now, if anything changed that it was
    /// not told yet: see `snapshot`. After that nothing is pending.
    pub fn ui_change(&mut self, interner: &PathInterner) -> (view: Option<Snapshot>)
        ensures
            final(self).nodes() == old(self).nodes(),
            final(self).focused() == old(self).focused(),
            !final(self).pending(),
            match view {
                Some(v) => old(self).pending() && v@ == snapshot(
                    old(self).nodes(),
                    old(self).focused(),
                    interner@,
                ),
                None => !old(self).pending(),
            },
    {
        if !self.focus_affected {
            return None;
        }
        self.focus_affected = false;
        Some(self.view_of(interner))
    }

    /// The path that the interner has for `id`, written out.
    fn text(interner: &PathInterner, id: Option<PathId>) -> (path: String)
        ensures
            path@ == path_text(interner@, id),
    {
        match id {
            Some(id) => match interner.get(id) {
                Some(path) => path,
                None => String::new(),
            },
            None => String::new(),
        }
    }

    /// What the viewer shows of the tree as it is: see `snapshot`.
    pub fn view_of(&self, interner: &PathInterner) -> (view: Snapshot)
        ensures
            view@ == snapshot(self.nodes(), self.focused(), interner@),
    {
        let total = self.root_total();
        let k = key_of(self.focus);
        let Some(node) = self.paths.get(&k) else {
            let view = Snapshot { current: None, children: Vec::new() };
            assert(view@.children =~= Seq::<RankView>::empty());
            return view;
        };
        let above = match self.focus {
            Some(_) => match self.paths.get(&key_of(node.parent)) {
                Some(parent) => parent.size,
                None => None,
            },
            None => None,
        };
        let current = Rank {
            path_id: k,
            path: Self::text(interner, self.focus),
            size: node.size,
            ratio: share_of(node.size, above),
            all_ratio: Ratio {
                part: match node.size {
                    Some(s) => s,
                    None => 0,
                },
                whole: total,
            },
            is_file: node.is_file,
        };
        let ghost rows = child_rows(self.nodes(), self.focused(), interner@);
        let mut children: Vec<Rank> = Vec::new();
        let mut i: usize = 0;
        while i < node.children.len()
            invariant
                i <= node.children.len(),
                node@ == node_at(self.nodes(), key(self.focused())),
                total == root_size(self.nodes()),
                rows == child_rows(self.nodes(), self.focused(), interner@),
                rows_of(children@) == ranked(rows.take(i as int)),
            decreases node.children.len() - i,
        {
            let child = node.children[i];
            let (size, is_file) = match self.paths.get(&child.into_raw()) {
                Some(slot) => (
                    match slot.size {
                        Some(s) => s,
                        None => 0,
                    },
                    slot.is_file,
                ),
                None => (0, false),
            };
            let row = Rank {
                path_id: child.into_raw(),
                path: Self::text(interner, Some(child)),
                size: Some(size),
                ratio: share_of(Some(size), node.size),
                all_ratio: Ratio { part: size, whole: total },
                is_file,
            };
            assert(row@ == rows[i as int]);
            assert(rows.take(i + 1).drop_last() =~= rows.take(i as int));
            place(&mut children, row);
            i += 1;
        }
        assert(rows.take(i as int) =~= rows);
        Snapshot { current: Some(current), children }
    }

    /// Carries out a command of the viewer: moves the focus, see `moved`,
    /// and tells the viewer what it shows then.
    pub fn process_ui_event(&mut self, interner: &PathInterner, event: UiEvent) -> (view: Snapshot)
        ensures
            final(self).nodes() == old(self).nodes(),
            final(self).focused() == moved(old(self).nodes(), old(self).focused(), event),
            !final(self).pending(),
            view@ == snapshot(final(self).nodes(), final(self).focused(), interner@),
    {
        let id = match event {
            UiEvent::GotoParent => match self.focus {
                Some(id) => self.parent_of(id),
                None => None,
            },
            UiEvent::GotoPath(raw) => match PathId::parse(raw.as_str()) {
                Some(id) => {
                    proof {
                        PathId::lemma_view_of(id);
                    }
                    if self.paths.contains_key(&id.into_raw()) {
                        Some(id)
                    } else {
                        None
                    }
                },
                None => None,
            },
        };
        self.focus = id;
        self.focus_affected = false;
        self.view_of(interner)
    }
}

} // verus!
