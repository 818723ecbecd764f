//! The scan: a walk over the entries of a directory tree that measures every
//! entry and reports those near the root.
//!
//! The walk works on what the file system answered, held in a [`FsNode`].
//! Reading the file system is left to the caller.

use crate::event::{Event, EventModel, EventRef};
use crate::path::{id_in, interned, lemma_interned_extends, resolved, PathId, PathInterner};
use vstd::prelude::*;

verus! {

/// The number of links that the scan follows from one entry before it gives
/// the entry up as a link that leads nowhere.
pub const MAX_LINK_FOLLOWS: usize = 40;

/// What the file system answered when asked about a path.
#[derive(Debug)]
pub enum FsNode {
    /// The question failed.
    Unreadable,
    /// A regular file of `size` bytes.
    File {
        /// The size of the file in bytes.
        size: u64,
    },
    /// A directory.
    Dir {
        /// The entries of the directory; none where they could not be listed.
        entries: Option<Vec<DirEntry>>,
    },
    /// A symbolic link.
    Link {
        /// What the file system answered about the path that the link names;
        /// none where the link could not be read.
        target: Option<Box<FsNode>>,
    },
    /// Something else.
    Other,
}

/// One entry of a directory.
#[derive(Debug)]
pub struct DirEntry {
    /// The path of the entry.
    pub path: String,
    /// What the file system answered about that path.
    pub node: FsNode,
}

/// The part of a scan that looks at one path.
#[derive(Debug, Clone, Copy)]
pub struct ShrTask {
    /// The parent path id.
    pub parent: Option<PathId>,
    /// The path id to scan.
    pub path_id: PathId,
    /// The number of levels, this one included, that are still reported.
    pub remain_report_depth: usize,
}

/// What the parts of a scan share.
pub struct Shared {
    /// The path interner.
    pub path_mgr: PathInterner,
    /// The events sent so far.
    pub tx: Vec<Event>,
    /// Whether to follow links.
    pub follow_links: bool,
}

/// The number of regular files under a path and the sum of their sizes, or
/// nothing where the path could not be looked at or, being a directory, could
/// not be listed.
///
/// A link counts as what it leads to where links are followed and `budget`
/// allows one more step. Any other link, and anything that is neither a file
/// nor a directory, is a leaf without files and without size.
pub open spec fn measured(node: FsNode, follow: bool, budget: nat) -> Option<(nat, nat)>
    decreases node, 0nat,
{
    match node {
        FsNode::Unreadable => None,
        FsNode::File { size } => Some((1, size as nat)),
        FsNode::Dir { entries: Some(list) } => Some(summed(list@, list@.len(), follow)),
        FsNode::Dir { entries: None } => None,
        FsNode::Link { target: Some(target) } => if follow && budget > 0 {
            measured(*target, follow, (budget - 1) as nat)
        } else {
            Some((0, 0))
        },
        FsNode::Link { target: None } => Some((0, 0)),
        FsNode::Other => Some((0, 0)),
    }
}

/// What a path adds to the totals of its directory: what was measured, and
/// nothing where nothing was.
pub open spec fn contribution(node: FsNode, follow: bool, budget: nat) -> (nat, nat) {
    match measured(node, follow, budget) {
        Some(totals) => totals,
        None => (0, 0),
    }
}

/// The sum of what the first `n` entries of a directory add to its totals.
pub open spec fn summed(list: Seq<DirEntry>, n: nat, follow: bool) -> (nat, nat)
    decreases list, n,
{
    if n == 0 || n > list.len() {
        (0, 0)
    } else {
        let before = summed(list, (n - 1) as nat, follow);
        let entry = match measured(list[n - 1].node, follow, MAX_LINK_FOLLOWS as nat) {
            Some(totals) => totals,
            None => (0, 0),
        };
        (before.0 + entry.0, before.1 + entry.1)
    }
}

/// Whether the totals of a path can be held: the number of files in a
/// `usize`, the sum of their sizes in a `u64`.
pub open spec fn fits(node: FsNode, follow: bool) -> bool {
    let totals = contribution(node, follow, MAX_LINK_FOLLOWS as nat);
    totals.0 <= usize::MAX && totals.1 <= u64::MAX
}

/// Measured totals as the scan hands them out.
pub open spec fn lowered(totals: Option<(nat, nat)>) -> Option<(usize, u64)> {
    match totals {
        Some((files, size)) => Some((files as usize, size as u64)),
        None => None,
    }
}

impl ShrTask {
    /// The task for an entry of the directory under scan: one
    /// level less is reported of it.
    pub open spec fn child(self, id: PathId) -> ShrTask {
        ShrTask {
            parent: Some(self.path_id),
            path_id: id,
            remain_report_depth: if self.remain_report_depth > 0 {
                (self.remain_report_depth - 1) as usize
            } else {
                0
            },
        }
    }

    /// The event that reports a file, while the level is one that is
    /// reported.
    pub open spec fn file_event(self, size: u64) -> Option<Event> {
        if self.remain_report_depth > 0 {
            Some(EventModel::FileFinish { path: self.path_id, parent: self.parent, size })
        } else {
            None
        }
    }

    /// The event that reports a directory as found, while the level is one
    /// that is reported.
    pub open spec fn dir_event(self) -> Option<Event> {
        if self.remain_report_depth > 0 {
            Some(EventModel::Dir { path: self.path_id, parent: self.parent })
        } else {
            None
        }
    }

    /// The event that reports a directory as finished, while the level is one
    /// that is reported.
    pub open spec fn finish_event(self, totals: (nat, nat)) -> Option<Event> {
        if self.remain_report_depth > 0 {
            Some(
                EventModel::DirFinish {
                    path: self.path_id,
                    size: totals.1 as u64,
                    num_files: totals.0 as usize,
                },
            )
        } else {
            None
        }
    }

    /// What a file sends.
    pub open spec fn file_events(self, size: u64) -> Seq<Event> {
        sent(self.file_event(size))
    }

    /// What a directory sends when it is found.
    pub open spec fn entered(self) -> Seq<Event> {
        sent(self.dir_event())
    }

    /// What a directory sends when it is finished.
    pub open spec fn finished(self, totals: (nat, nat)) -> Seq<Event> {
        sent(self.finish_event(totals))
    }
}

/// What one look at a path found, before anything below it is known.
#[derive(Debug, Clone, Copy, PartialEq, Eq)]
pub enum Probe {
    /// The question failed.
    Unreadable,
    /// A regular file of `size` bytes.
    File {
        /// The size of the file in bytes.
        size: u64,
    },
    /// A directory.
    Dir {
        /// Whether its entries could be listed.
        listed: bool,
    },
    /// A symbolic link.
    Link {
        /// Whether the link could be read.
        resolved: bool,
    },
    /// Something else.
    Other,
}

/// What the scan does next with a path.
#[derive(Debug, Clone, Copy, PartialEq, Eq)]
pub enum Step {
    /// Nothing: the path is done with, and adds these totals, if any.
    Done(Option<(usize, u64)>),
    /// It goes through the entries of the directory.
    List,
    /// It looks at the path that the link names, with this many links left
    /// to follow after it.
    Follow(usize),
}

/// What one look at a path finds when the file system answers `node`.
pub open spec fn probe_of(node: FsNode) -> Probe {
    match node {
        FsNode::Unreadable => Probe::Unreadable,
        FsNode::File { size } => Probe::File { size },
        FsNode::Dir { entries } => Probe::Dir { listed: entries is Some },
        FsNode::Link { target } => Probe::Link { resolved: target is Some },
        FsNode::Other => Probe::Other,
    }
}

/// What a task sends about a path and what the scan does next with it, with
/// `follows` links left to follow.
///
/// A file is reported and adds itself and its size. A directory is reported
/// as found; the scan goes through its entries, or is done with it, without
/// totals, where they could not be listed. A link is followed where links
/// are followed, one is left to follow and the link could be read; any other
/// link, and anything that is neither file nor directory, adds nothing.
/// What could not be looked at has no totals.
pub open spec fn stepped(task: ShrTask, probe: Probe, follow: bool, follows: usize) -> (
    Option<Event>,
    Step,
) {
    match probe {
        Probe::Unreadable => (None, Step::Done(None)),
        Probe::File { size } => (task.file_event(size), Step::Done(Some((1, size)))),
        Probe::Dir { listed } => (
            task.dir_event(),
            if listed {
                Step::List
            } else {
                Step::Done(None)
            },
        ),
        Probe::Link { resolved } => (
            None,
            if follow && follows > 0 && resolved {
                Step::Follow((follows - 1) as usize)
            } else {
                Step::Done(Some((0, 0)))
            },
        ),
        Probe::Other => (None, Step::Done(Some((0, 0)))),
    }
}

/// What a path adds to the totals of its directory: its totals, and nothing
/// where it has none.
pub fn contributed(totals: Option<(usize, u64)>) -> (added: (usize, u64))
    ensures
        added == match totals {
            Some(totals) => totals,
            None => (0usize, 0u64),
        },
{
    match totals {
        Some(totals) => totals,
        None => (0, 0),
    }
}

/// The events that sending `event` adds: the event, if there is one.
pub open spec fn sent(event: Option<Event>) -> Seq<Event> {
    match event {
        Some(event) => seq![event],
        None => Seq::empty(),
    }
}

/// Whether two totals can be added up: the number of files in a `usize`, the
/// sizes in a `u64`.
pub open spec fn joins(a: (usize, u64), b: (usize, u64)) -> bool {
    a.0 + b.0 <= usize::MAX && a.1 + b.1 <= u64::MAX
}

/// Adds up what two parts of a directory added to its totals, or gives
/// nothing where a sum cannot be held.
pub fn join(a: (usize, u64), b: (usize, u64)) -> (sum: Option<(usize, u64)>)
    ensures
        sum is Some <==> joins(a, b),
        sum matches Some(s) ==> s.0 == a.0 + b.0 && s.1 == a.1 + b.1,
{
    let Some(num_files) = a.0.checked_add(b.0) else {
        return None;
    };
    let Some(size) = a.1.checked_add(b.1) else {
        return None;
    };
    Some((num_files, size))
}

/// What a part of a scan leaves behind: the events it sent, in the order in
/// which it sent them, and the table of interned paths after it.
pub struct Trace {
    /// The events sent.
    pub events: Seq<Event>,
    /// The interned paths.
    pub paths: Seq<Seq<char>>,
}

/// What the scan of one path leaves behind, started with the table `paths`.
///
/// A file sends that it is finished. A directory sends that it was found,
/// then comes what its entries leave behind, one after the other, then it
/// sends that it is finished, with the sum of what its entries added; a
/// directory that could not be listed sends only that it was found. A link
/// that is followed leaves what its target leaves. Nothing else sends
/// anything. Every event is held back at a level that is not reported.
pub open spec fn traced(
    node: FsNode,
    task: ShrTask,
    follow: bool,
    budget: nat,
    paths: Seq<Seq<char>>,
) -> Trace
    decreases node, 0nat,
{
    match node {
        FsNode::Unreadable => Trace { events: Seq::empty(), paths },
        FsNode::File { size } => Trace { events: task.file_events(size), paths },
        FsNode::Dir { entries: Some(list) } => {
            let inner = traced_entries(list@, list@.len(), task, follow, paths);
            Trace {
                events: task.entered() + inner.events + task.finished(
                    summed(list@, list@.len(), follow),
                ),
                paths: inner.paths,
            }
        },
        FsNode::Dir { entries: None } => Trace { events: task.entered(), paths },
        FsNode::Link { target: Some(target) } => if follow && budget > 0 {
            traced(*target, task, follow, (budget - 1) as nat, paths)
        } else {
            Trace { events: Seq::empty(), paths }
        },
        FsNode::Link { target: None } => Trace { events: Seq::empty(), paths },
        FsNode::Other => Trace { events: Seq::empty(), paths },
    }
}

/// The task for the entry at `path` of the directory that `task` looks at,
/// and the table after the path was interned into `paths`.
pub open spec fn entry_task(task: ShrTask, path: Seq<char>, paths: Seq<Seq<char>>) -> (
    ShrTask,
    Seq<Seq<char>>,
) {
    let table = interned(paths, path);
    (task.child(PathId::of(id_in(table, path) as usize)), table)
}

/// What the scans of the first `n` entries of a directory leave behind, one
/// after the other. The path of each entry is interned just before the entry
/// is scanned.
pub open spec fn traced_entries(
    list: Seq<DirEntry>,
    n: nat,
    task: ShrTask,
    follow: bool,
    paths: Seq<Seq<char>>,
) -> Trace
    decreases list, n,
{
    if n == 0 || n > list.len() {
        Trace { events: Seq::empty(), paths }
    } else {
        let before = traced_entries(list, (n - 1) as nat, task, follow, paths);
        let (sub, table) = entry_task(task, list[n - 1].path@, before.paths);
        let entry = traced(list[n - 1].node, sub, follow, MAX_LINK_FOLLOWS as nat, table);
        Trace { events: before.events + entry.events, paths: entry.paths }
    }
}

/// The sum over the first entries of a directory is no more than the sum
/// over more of them.
proof fn lemma_summed_grows(list: Seq<DirEntry>, i: nat, n: nat, follow: bool)
    requires
        i <= n <= list.len(),
    ensures
        summed(list, i, follow).0 <= summed(list, n, follow).0,
        summed(list, i, follow).1 <= summed(list, n, follow).1,
    decreases n - i,
{
    if i < n {
        lemma_summed_grows(list, i, (n - 1) as nat, follow);
    }
}

/// At a level that is not reported a scan sends nothing.
pub proof fn lemma_unreported_is_silent(
    node: FsNode,
    task: ShrTask,
    follow: bool,
    budget: nat,
    paths: Seq<Seq<char>>,
)
    requires
        task.remain_report_depth == 0,
    ensures
        traced(node, task, follow, budget, paths).events == Seq::<Event>::empty(),
    decreases node, 0nat,
{
    match node {
        FsNode::Dir { entries: Some(list) } => {
            lemma_unreported_entries_are_silent(list@, list@.len(), task, follow, paths);
            assert(traced(node, task, follow, budget, paths).events =~= Seq::<Event>::empty());
        },
        FsNode::Link { target: Some(target) } => {
            if follow && budget > 0 {
                lemma_unreported_is_silent(*target, task, follow, (budget - 1) as nat, paths);
            }
        },
        _ => {},
    }
}

/// Below a level that is not reported the entries of a directory send
/// nothing.
pub proof fn lemma_unreported_entries_are_silent(
    list: Seq<DirEntry>,
    n: nat,
    task: ShrTask,
    follow: bool,
    paths: Seq<Seq<char>>,
)
    requires
        task.remain_report_depth <= 1,
    ensures
        traced_entries(list, n, task, follow, paths).events == Seq::<Event>::empty(),
    decreases list, n,
{
    if n == 0 || n > list.len() {
    } else {
        lemma_unreported_entries_are_silent(list, (n - 1) as nat, task, follow, paths);
        let before = traced_entries(list, (n - 1) as nat, task, follow, paths);
        let (sub, table) = entry_task(task, list[n - 1].path@, before.paths);
        lemma_unreported_is_silent(list[n - 1].node, sub, follow, MAX_LINK_FOLLOWS as nat, table);
        assert(traced_entries(list, n, task, follow, paths).events =~= Seq::<Event>::empty());
    }
}

/// A directory that is reported and can be listed sends first that it was
/// found and last that it is finished, and what it then reports is the sum of
/// what its entries add, whatever the number of levels that are reported
/// below it.
pub proof fn lemma_dir_reports_its_sum(
    list: Vec<DirEntry>,
    task: ShrTask,
    follow: bool,
    budget: nat,
    paths: Seq<Seq<char>>,
)
    requires
        task.remain_report_depth > 0,
    ensures
        ({
            let dir = FsNode::Dir { entries: Some(list) };
            let events = traced(dir, task, follow, budget, paths).events;
            let sum = summed(list@, list@.len(), follow);
            &&& measured(dir, follow, budget) == Some(sum)
            &&& events.len() >= 2
            &&& events.first() == (Event::Dir { path: task.path_id, parent: task.parent })
            &&& events.last() == (Event::DirFinish {
                path: task.path_id,
                size: sum.1 as u64,
                num_files: sum.0 as usize,
            })
        }),
{
}

/// The paths at fewer than `levels` levels below and including `path`, where
/// `node` is what the file system answered about `path`.
pub open spec fn near(path: Seq<char>, node: FsNode, levels: nat, follow: bool, budget: nat) -> Set<
    Seq<char>,
>
    decreases node, 0nat,
{
    if levels == 0 {
        Set::empty()
    } else {
        match node {
            FsNode::Dir { entries: Some(list) } => near_entries(
                list@,
                list@.len(),
                (levels - 1) as nat,
                follow,
            ).insert(path),
            FsNode::Link { target: Some(target) } => if follow && budget > 0 {
                near(path, *target, levels, follow, (budget - 1) as nat)
            } else {
                set![path]
            },
            _ => set![path],
        }
    }
}

/// The paths at fewer than `levels` levels below and including the first `n`
/// entries of a directory.
pub open spec fn near_entries(list: Seq<DirEntry>, n: nat, levels: nat, follow: bool) -> Set<
    Seq<char>,
>
    decreases list, n,
{
    if n == 0 || n > list.len() {
        Set::empty()
    } else {
        near_entries(list, (n - 1) as nat, levels, follow).union(
            near(list[n - 1].path@, list[n - 1].node, levels, follow, MAX_LINK_FOLLOWS as nat),
        )
    }
}

/// Whether each of `events` is about an id for which `items` has a path
/// among `allowed`.
pub open spec fn names_only(
    items: Seq<Seq<char>>,
    events: Seq<Event>,
    allowed: Set<Seq<char>>,
) -> bool {
    forall|i: int|
        0 <= i < events.len() ==> match resolved(
            items,
            crate::event::subject(#[trigger] events[i])@ as int,
        ) {
            Some(path) => allowed.contains(path),
            None => false,
        }
}

/// A scan keeps the interned paths at their places and interns none twice.
pub proof fn lemma_scan_extends_table(
    node: FsNode,
    task: ShrTask,
    follow: bool,
    budget: nat,
    paths: Seq<Seq<char>>,
)
    requires
        paths.no_duplicates(),
    ensures
        paths.is_prefix_of(traced(node, task, follow, budget, paths).paths),
        traced(node, task, follow, budget, paths).paths.no_duplicates(),
    decreases node, 0nat,
{
    match node {
        FsNode::Dir { entries: Some(list) } => {
            lemma_entries_extend_table(list@, list@.len(), task, follow, paths);
        },
        FsNode::Link { target: Some(target) } => {
            if follow && budget > 0 {
                lemma_scan_extends_table(*target, task, follow, (budget - 1) as nat, paths);
            }
        },
        _ => {},
    }
}

/// The scans of the entries of a directory keep the interned paths at their
/// places and intern none twice.
pub proof fn lemma_entries_extend_table(
    list: Seq<DirEntry>,
    n: nat,
    task: ShrTask,
    follow: bool,
    paths: Seq<Seq<char>>,
)
    requires
        paths.no_duplicates(),
    ensures
        paths.is_prefix_of(traced_entries(list, n, task, follow, paths).paths),
        traced_entries(list, n, task, follow, paths).paths.no_duplicates(),
    decreases list, n,
{
    if n == 0 || n > list.len() {
    } else {
        lemma_entries_extend_table(list, (n - 1) as nat, task, follow, paths);
        let before = traced_entries(list, (n - 1) as nat, task, follow, paths);
        let (sub, table) = entry_task(task, list[n - 1].path@, before.paths);
        lemma_interned_extends(before.paths, list[n - 1].path@);
        lemma_scan_extends_table(list[n - 1].node, sub, follow, MAX_LINK_FOLLOWS as nat, table);
    }
}

/// Events that are about paths of a table are about the same paths in a
/// table that extends it.
proof fn lemma_names_carry_over(
    items: Seq<Seq<char>>,
    later: Seq<Seq<char>>,
    events: Seq<Event>,
    allowed: Set<Seq<char>>,
    wider: Set<Seq<char>>,
)
    requires
        items.is_prefix_of(later),
        names_only(items, events, allowed),
        allowed.subset_of(wider),
    ensures
        names_only(later, events, wider),
{
    assert forall|i: int| 0 <= i < events.len() implies match resolved(
        later,
        crate::event::subject(#[trigger] events[i])@ as int,
    ) {
        Some(path) => wider.contains(path),
        None => false,
    } by {
        let raw = crate::event::subject(events[i])@ as int;
        assert(resolved(items, raw) is Some);
        assert(later[raw - 1] == items[raw - 1]);
    }
}

/// With a number of levels to report, a scan sends no event about a path
/// that lies that many levels or more below the path it started from: every
/// event is about a path that is `near`.
pub proof fn lemma_reports_near_paths_only(
    node: FsNode,
    task: ShrTask,
    follow: bool,
    budget: nat,
    paths: Seq<Seq<char>>,
    path: Seq<char>,
)
    requires
        paths.no_duplicates(),
        resolved(paths, task.path_id@ as int) == Some(path),
        traced(node, task, follow, budget, paths).paths.len() <= usize::MAX,
    ensures
        names_only(
            traced(node, task, follow, budget, paths).paths,
            traced(node, task, follow, budget, paths).events,
            near(path, node, task.remain_report_depth as nat, follow, budget),
        ),
    decreases node, 0nat,
{
    let trace = traced(node, task, follow, budget, paths);
    let allowed = near(path, node, task.remain_report_depth as nat, follow, budget);
    lemma_scan_extends_table(node, task, follow, budget, paths);
    assert(trace.paths[task.path_id@ - 1] == paths[task.path_id@ - 1]);
    if task.remain_report_depth == 0 {
        lemma_unreported_is_silent(node, task, follow, budget, paths);
    } else {
        match node {
            FsNode::Dir { entries: Some(list) } => {
                let inner = traced_entries(list@, list@.len(), task, follow, paths);
                let below = near_entries(
                    list@,
                    list@.len(),
                    (task.remain_report_depth - 1) as nat,
                    follow,
                );
                lemma_entries_report_near_paths_only(list@, list@.len(), task, follow, paths);
                assert forall|i: int| 0 <= i < trace.events.len() implies match resolved(
                    trace.paths,
                    crate::event::subject(#[trigger] trace.events[i])@ as int,
                ) {
                    Some(path) => allowed.contains(path),
                    None => false,
                } by {
                    if 1 <= i <= inner.events.len() {
                        assert(trace.events[i] == inner.events[i - 1]);
                    }
                }
            },
            FsNode::Link { target: Some(target) } => {
                if follow && budget > 0 {
                    lemma_reports_near_paths_only(
                        *target,
                        task,
                        follow,
                        (budget - 1) as nat,
                        paths,
                        path,
                    );
                }
            },
            _ => {},
        }
    }
}

/// The scans of the entries of a directory send no event about a path that
/// lies as many levels below the entries as are reported of them, or more.
pub proof fn lemma_entries_report_near_paths_only(
    list: Seq<DirEntry>,
    n: nat,
    task: ShrTask,
    follow: bool,
    paths: Seq<Seq<char>>,
)
    requires
        paths.no_duplicates(),
        task.remain_report_depth > 0,
        traced_entries(list, n, task, follow, paths).paths.len() <= usize::MAX,
    ensures
        names_only(
            traced_entries(list, n, task, follow, paths).paths,
            traced_entries(list, n, task, follow, paths).events,
            near_entries(list, n, (task.remain_report_depth - 1) as nat, follow),
        ),
    decreases list, n,
{
    if n == 0 || n > list.len() {
    } else {
        let levels = (task.remain_report_depth - 1) as nat;
        let trace = traced_entries(list, n, task, follow, paths);
        let before = traced_entries(list, (n - 1) as nat, task, follow, paths);
        let path = list[n - 1].path@;
        let (sub, table) = entry_task(task, path, before.paths);
        let entry = traced(list[n - 1].node, sub, follow, MAX_LINK_FOLLOWS as nat, table);
        lemma_entries_extend_table(list, (n - 1) as nat, task, follow, paths);
        lemma_interned_extends(before.paths, path);
        lemma_scan_extends_table(list[n - 1].node, sub, follow, MAX_LINK_FOLLOWS as nat, table);
        PathId::lemma_of_view(id_in(table, path) as usize);
        lemma_entries_report_near_paths_only(list, (n - 1) as nat, task, follow, paths);
        lemma_reports_near_paths_only(
            list[n - 1].node,
            sub,
            follow,
            MAX_LINK_FOLLOWS as nat,
            table,
            path,
        );
        let allowed = near_entries(list, n, levels, follow);
        lemma_names_carry_over(
            before.paths,
            trace.paths,
            before.events,
            near_entries(list, (n - 1) as nat, levels, follow),
            allowed,
        );
        assert forall|i: int| 0 <= i < trace.events.len() implies match resolved(
            trace.paths,
            crate::event::subject(#[trigger] trace.events[i])@ as int,
        ) {
            Some(path) => allowed.contains(path),
            None => false,
        } by {
            if i < before.events.len() {
                assert(trace.events[i] == before.events[i]);
            } else {
                assert(trace.events[i] == entry.events[i - before.events.len()]);
            }
        }
    }
}

impl FsNode {
    /// What one look at the path finds: see `probe_of`.
    pub fn probe(&self) -> (probe: Probe)
        ensures
            probe == probe_of(*self),
    {
        match self {
            FsNode::Unreadable => Probe::Unreadable,
            FsNode::File { size } => Probe::File { size: *size },
            FsNode::Dir { entries } => Probe::Dir { listed: entries.is_some() },
            FsNode::Link { target } => Probe::Link { resolved: target.is_some() },
            FsNode::Other => Probe::Other,
        }
    }

    /// What the path adds to the totals of its directory, the number of
    /// regular files first and the sum of their sizes second, or nothing
    /// where one of the two cannot be held: see `fits`.
    pub fn totals(&self, follow_links: bool) -> (totals: Option<(usize, u64)>)
        ensures
            totals is Some <==> fits(*self, follow_links),
            totals matches Some(t) ==> {
                &&& t.0 == contribution(*self, follow_links, MAX_LINK_FOLLOWS as nat).0
                &&& t.1 == contribution(*self, follow_links, MAX_LINK_FOLLOWS as nat).1
            },
        decreases self, 1nat,
    {
        self.totals_within(follow_links, MAX_LINK_FOLLOWS)
    }

    /// The totals of the path with at most `follows` links followed on the
    /// way to what it is, or nothing where they cannot be held.
    fn totals_within(&self, follow_links: bool, follows: usize) -> (totals: Option<(usize, u64)>)
        ensures
            match totals {
                Some(t) => {
                    &&& t.0 == contribution(*self, follow_links, follows as nat).0
                    &&& t.1 == contribution(*self, follow_links, follows as nat).1
                },
                None => {
                    ||| contribution(*self, follow_links, follows as nat).0 > usize::MAX
                    ||| contribution(*self, follow_links, follows as nat).1 > u64::MAX
                },
            },
        decreases self, 0nat,
    {
        match self {
            FsNode::File { size } => Some((1, *size)),
            FsNode::Dir { entries: Some(list) } => {
                let mut num_files: usize = 0;
                let mut size: u64 = 0;
                let mut i: usize = 0;
                while i < list.len()
                    invariant
                        i <= list.len(),
                        self == (FsNode::Dir { entries: Some(*list) }),
                        num_files == summed(list@, i as nat, follow_links).0,
                        size == summed(list@, i as nat, follow_links).1,
                    decreases list.len() - i,
                {
                    proof {
                        lemma_summed_grows(list@, (i + 1) as nat, list@.len(), follow_links);
                        assert(decreases_to!(*self => self->entries));
                        assert(decreases_to!(self->entries => self->entries->0));
                        assert(decreases_to!(*list => list[i as int]));
                    }
                    let Some((sub_num_files, sub_size)) = list[i].node.totals(follow_links) else {
                        return None;
                    };
                    let Some((more_files, more_size)) = join(
                        (num_files, size),
                        (sub_num_files, sub_size),
                    ) else {
                        return None;
                    };
                    num_files = more_files;
                    size = more_size;
                    i += 1;
                }
                Some((num_files, size))
            },
            FsNode::Link { target: Some(target) } => {
                if follow_links && follows > 0 {
                    target.totals_within(follow_links, follows - 1)
                } else {
                    Some((0, 0))
                }
            },
            _ => Some((0, 0)),
        }
    }
}

impl ShrTask {
    /// Executes the task: scans `node`, which is what the file system
    /// answered about the task's path. The result is what was measured.
    pub fn exec(self, node: &FsNode, shared: &mut Shared) -> (totals: Option<(usize, u64)>)
        requires
            fits(*node, old(shared).follow_links),
        ensures
            totals == lowered(
                measured(*node, old(shared).follow_links, MAX_LINK_FOLLOWS as nat),
            ),
            final(shared).follow_links == old(shared).follow_links,
            final(shared).tx@ == old(shared).tx@ + traced(
                *node,
                self,
                old(shared).follow_links,
                MAX_LINK_FOLLOWS as nat,
                old(shared).path_mgr@,
            ).events,
            final(shared).path_mgr@ == traced(
                *node,
                self,
                old(shared).follow_links,
                MAX_LINK_FOLLOWS as nat,
                old(shared).path_mgr@,
            ).paths,
            old(shared).path_mgr@.len() <= usize::MAX ==> final(shared).path_mgr@.len()
                <= usize::MAX,
        decreases node, 1nat,
    {
        self.exec_within(node, shared, MAX_LINK_FOLLOWS)
    }

    /// Scans `node` and follows at most `follows` links on the way to what
    /// it is.
    fn exec_within(self, node: &FsNode, shared: &mut Shared, follows: usize) -> (totals: Option<
        (usize, u64),
    >)
        requires
            contribution(*node, old(shared).follow_links, follows as nat).0 <= usize::MAX,
            contribution(*node, old(shared).follow_links, follows as nat).1 <= u64::MAX,
        ensures
            totals == lowered(measured(*node, old(shared).follow_links, follows as nat)),
            final(shared).follow_links == old(shared).follow_links,
            final(shared).tx@ == old(shared).tx@ + traced(
                *node,
                self,
                old(shared).follow_links,
                follows as nat,
                old(shared).path_mgr@,
            ).events,
            final(shared).path_mgr@ == traced(
                *node,
                self,
                old(shared).follow_links,
                follows as nat,
                old(shared).path_mgr@,
            ).paths,
            old(shared).path_mgr@.len() <= usize::MAX ==> final(shared).path_mgr@.len()
                <= usize::MAX,
        decreases node, 0nat,
    {
        let (event, step) = self.step(node.probe(), shared.follow_links, follows);
        shared.send(event);
        match step {
            Step::Done(totals) => totals,
            Step::List => {
                let FsNode::Dir { entries } = node else {
                    return None;
                };
                let totals = self.scan_dir(entries, shared);
                proof {
                    let list = entries->0;
                    let inner = traced_entries(
                        list@,
                        list@.len(),
                        self,
                        shared.follow_links,
                        old(shared).path_mgr@,
                    );
                    let last = self.finished(summed(list@, list@.len(), shared.follow_links));
                    assert(old(shared).tx@ + self.entered() + (inner.events + last) =~= old(
                        shared,
                    ).tx@ + (self.entered() + inner.events + last));
                }
                totals
            },
            Step::Follow(left) => {
                let FsNode::Link { target: Some(target) } = node else {
                    return None;
                };
                assert(shared.tx@ =~= old(shared).tx@);
                self.exec_within(target, shared, left)
            },
        }
    }

    /// The task for one entry of the directory under scan. The
    /// path of the entry is interned.
    pub fn dir_task(&self, entry: &DirEntry, shared: &mut Shared) -> (task: ShrTask)
        ensures
            task == entry_task(*self, entry.path@, old(shared).path_mgr@).0,
            final(shared).path_mgr@ == entry_task(*self, entry.path@, old(shared).path_mgr@).1,
            final(shared).path_mgr@.len() <= usize::MAX,
            final(shared).tx@ == old(shared).tx@,
            final(shared).follow_links == old(shared).follow_links,
    {
        let path_id = shared.path_mgr.intern(entry.path.as_str());
        proof {
            PathId::lemma_view_of(path_id);
        }
        self.child_task(path_id)
    }

    /// The task for the entry with the id `path_id` of the directory under
    /// scan: one level less is reported of it.
    pub fn child_task(&self, path_id: PathId) -> (task: ShrTask)
        ensures
            task == self.child(path_id),
    {
        ShrTask {
            remain_report_depth: self.remain_report_depth.saturating_sub(1),
            path_id,
            parent: Some(self.path_id),
        }
    }

    /// What to send about a path and what to do next with it, after one look
    /// at it: see `stepped`.
    pub fn step(&self, probe: Probe, follow_links: bool, follows: usize) -> (next: (
        Option<Event>,
        Step,
    ))
        ensures
            next == stepped(*self, probe, follow_links, follows),
    {
        match probe {
            Probe::Unreadable => (None, Step::Done(None)),
            Probe::File { size } => (self.file_finished(size), Step::Done(Some((1, size)))),
            Probe::Dir { listed } => (
                self.found(),
                if listed {
                    Step::List
                } else {
                    Step::Done(None)
                },
            ),
            Probe::Link { resolved } => (
                None,
                if follow_links && follows > 0 && resolved {
                    Step::Follow(follows - 1)
                } else {
                    Step::Done(Some((0, 0)))
                },
            ),
            Probe::Other => (None, Step::Done(Some((0, 0)))),
        }
    }

    /// The event to send for a directory that was found, if its level is one
    /// that is reported.
    pub fn found(&self) -> (event: Option<Event>)
        ensures
            event == self.dir_event(),
    {
        if self.remain_report_depth > 0 {
            Some(EventModel::Dir { path: self.path_id, parent: self.parent })
        } else {
            None
        }
    }

    /// The event to send for a file of `size` bytes, if its level is one
    /// that is reported. The file adds itself and its size to the totals of
    /// its directory.
    pub fn file_finished(&self, size: u64) -> (event: Option<Event>)
        ensures
            event == self.file_event(size),
    {
        if self.remain_report_depth > 0 {
            Some(EventModel::FileFinish { path: self.path_id, parent: self.parent, size })
        } else {
            None
        }
    }

    /// The event to send for a directory whose entries added up to `totals`,
    /// the number of files first, if its level is one that is reported.
    pub fn dir_finished(&self, totals: (usize, u64)) -> (event: Option<Event>)
        ensures
            event == self.finish_event((totals.0 as nat, totals.1 as nat)),
    {
        if self.remain_report_depth > 0 {
            Some(EventModel::DirFinish { path: self.path_id, size: totals.1, num_files: totals.0 })
        } else {
            None
        }
    }

    /// Scans the entries of the directory under scan, one after
    /// the other, and sends that the directory is finished. The result is the
    /// sum of what the entries added, or nothing where there are no entries
    /// to go through.
    fn scan_dir(self, entries: &Option<Vec<DirEntry>>, shared: &mut Shared) -> (totals: Option<
        (usize, u64),
    >)
        requires
            entries matches Some(list) ==> {
                &&& summed(list@, list@.len(), old(shared).follow_links).0 <= usize::MAX
                &&& summed(list@, list@.len(), old(shared).follow_links).1 <= u64::MAX
            },
        ensures
            final(shared).follow_links == old(shared).follow_links,
            match entries {
                Some(list) => {
                    let inner = traced_entries(
                        list@,
                        list@.len(),
                        self,
                        old(shared).follow_links,
                        old(shared).path_mgr@,
                    );
                    let sum = summed(list@, list@.len(), old(shared).follow_links);
                    &&& totals == Some((sum.0 as usize, sum.1 as u64))
                    &&& final(shared).tx@ == old(shared).tx@ + (inner.events + self.finished(sum))
                    &&& final(shared).path_mgr@ == inner.paths
                    &&& old(shared).path_mgr@.len() <= usize::MAX ==> final(shared).path_mgr@.len()
                        <= usize::MAX
                },
                None => {
                    &&& totals is None
                    &&& final(shared).tx@ == old(shared).tx@
                    &&& final(shared).path_mgr@ == old(shared).path_mgr@
                },
            },
        decreases entries, 0nat,
    {
        let Some(list) = entries else {
            return None;
        };
        let ghost follow = shared.follow_links;
        let ghost start = old(shared).path_mgr@;
        let mut num_files: usize = 0;
        let mut size: u64 = 0;
        let mut i: usize = 0;
        assert(shared.tx@ =~= old(shared).tx@ + Seq::<Event>::empty());
        while i < list.len()
            invariant
                i <= list.len(),
                entries == Some(*list),
                follow == old(shared).follow_links,
                start == old(shared).path_mgr@,
                shared.follow_links == follow,
                summed(list@, list@.len(), follow).0 <= usize::MAX,
                summed(list@, list@.len(), follow).1 <= u64::MAX,
                num_files == summed(list@, i as nat, follow).0,
                size == summed(list@, i as nat, follow).1,
                shared.tx@ == old(shared).tx@ + traced_entries(
                    list@,
                    i as nat,
                    self,
                    follow,
                    start,
                ).events,
                shared.path_mgr@ == traced_entries(list@, i as nat, self, follow, start).paths,
                start.len() <= usize::MAX ==> shared.path_mgr@.len() <= usize::MAX,
            decreases list.len() - i,
        {
            let entry = &list[i];
            let ghost before = traced_entries(list@, i as nat, self, follow, start);
            let ghost sent = shared.tx@;
            let task = self.dir_task(entry, shared);
            proof {
                lemma_summed_grows(list@, (i + 1) as nat, list@.len(), follow);
                assert(decreases_to!(*entries => entries->0));
                assert(decreases_to!(*list => list[i as int]));
                assert(decreases_to!(list[i as int] => entry.node));
            }
            let (sub_num_files, sub_size) = contributed(task.exec(&entry.node, shared));
            proof {
                let after = traced(
                    entry.node,
                    task,
                    follow,
                    MAX_LINK_FOLLOWS as nat,
                    interned(before.paths, entry.path@),
                );
                assert(old(shared).tx@ + before.events + after.events =~= old(shared).tx@ + (
                before.events + after.events));
            }
            num_files = num_files + sub_num_files;
            size = sub_size + size;
            i += 1;
        }
        shared.send(self.dir_finished((num_files, size)));
        proof {
            let inner = traced_entries(list@, list@.len(), self, follow, start);
            let sum = summed(list@, list@.len(), follow);
            assert(shared.tx@ =~= old(shared).tx@ + (inner.events + self.finished(sum)));
        }
        Some((num_files, size))
    }
}

impl Shared {
    /// Sends an event, if there is one: it is the last of the events sent.
    pub fn send(&mut self, event: Option<Event>)
        ensures
            final(self).tx@ == old(self).tx@ + sent(event),
            final(self).path_mgr@ == old(self).path_mgr@,
            final(self).follow_links == old(self).follow_links,
    {
        if let Some(event) = event {
            self.tx.push(event);
        }
        assert(self.tx@ =~= old(self).tx@ + sent(event));
    }
}

/// The receiver for the events.
pub struct ShrRx {
    path_interner: PathInterner,
    rx: Vec<Event>,
    next: usize,
}

impl ShrRx {
    #[verifier::type_invariant]
    spec fn within(self) -> bool {
        self.next <= self.rx@.len()
    }

    /// The events that were sent and not received yet, the oldest first.
    pub closed spec fn pending(&self) -> Seq<Event> {
        self.rx@.skip(self.next as int)
    }

    /// The table of the paths that the scan interned.
    pub closed spec fn paths(&self) -> Seq<Seq<char>> {
        self.path_interner@
    }

    /// Receives an event: the oldest that is pending, or nothing where none
    /// is.
    pub fn recv(&mut self) -> (event: Option<EventRef<'_>>)
        ensures
            final(self).paths() == old(self).paths(),
            match event {
                Some(event) => {
                    &&& old(self).pending().len() > 0
                    &&& event.data == old(self).pending()[0]
                    &&& event.rx.paths() == old(self).paths()
                    &&& final(self).pending() == old(self).pending().skip(1)
                },
                None => old(self).pending().len() == 0 && final(self).pending() == old(
                    self,
                ).pending(),
            },
    {
        proof {
            use_type_invariant(&*self);
        }
        if self.next < self.rx.len() {
            let data = self.rx[self.next];
            self.next = self.next + 1;
            assert(self.pending() =~= old(self).pending().skip(1));
            Some(EventRef { rx: self, data })
        } else {
            None
        }
    }

    /// The interner of the scan, which has the path of every id that the
    /// events name.
    pub fn interner(&self) -> (interner: &PathInterner)
        ensures
            interner@ == self.paths(),
    {
        &self.path_interner
    }

    /// Gets the path for the given `PathId`.
    pub fn get_path(&self, id: PathId) -> (path: Option<String>)
        ensures
            match path {
                Some(path) => resolved(self.paths(), id@ as int) == Some(path@),
                None => resolved(self.paths(), id@ as int) is None,
            },
    {
        self.path_interner.get(id)
    }
}

/// The main struct to scan the directory recursively.
pub struct Shr {
    /// The path to scan.
    path: String,
    /// The path interner.
    path_interner: PathInterner,
    /// The maximum depth to report.
    max_depth: usize,
}

impl Shr {
    /// The path to scan.
    pub closed spec fn path(&self) -> Seq<char> {
        self.path@
    }

    /// The number of levels that are reported, the root being the first;
    /// with none, nothing is reported.
    pub closed spec fn levels(&self) -> usize {
        self.max_depth
    }

    /// The table of the paths interned so far.
    pub closed spec fn paths(&self) -> Seq<Seq<char>> {
        self.path_interner@
    }

    /// The task that scans the root, and the table with the root's path in
    /// it.
    pub open spec fn root_task(&self) -> (ShrTask, Seq<Seq<char>>) {
        let table = interned(self.paths(), self.path());
        (
            ShrTask {
                parent: None,
                path_id: PathId::of(id_in(table, self.path()) as usize),
                remain_report_depth: self.levels(),
            },
            table,
        )
    }

    /// Creates a `Shr` that scans files in the `path`. It reports every
    /// level.
    pub fn new(path: String) -> (shr: Self)
        ensures
            shr.path() == path@,
            shr.levels() == usize::MAX,
            shr.paths() == Seq::<Seq<char>>::empty(),
    {
        Self { path, path_interner: PathInterner::new(), max_depth: usize::MAX }
    }

    /// Sets the maximum depth to *report*. That is, all the files under the
    /// directory are still scanned but only the files whose path is fewer
    /// than `max_depth` levels below the root are reported. With a depth of
    /// zero nothing is reported, not even the root.
    pub fn with_max_depth(self, max_depth: usize) -> (shr: Self)
        ensures
            shr.path() == self.path(),
            shr.paths() == self.paths(),
            shr.levels() == max_depth,
    {
        let mut shr = self;
        shr.max_depth = max_depth;
        shr
    }

    /// What the scan of `root` leaves behind: see `traced`.
    pub open spec fn trace(&self, root: FsNode) -> Trace {
        traced(root, self.root_task().0, true, MAX_LINK_FOLLOWS as nat, self.root_task().1)
    }

    /// Runs the scan routine on `root`, which is what the file system
    /// answered about the path to scan, and follows links. The receiver holds
    /// the events of the scan and the paths that it interned. No event is
    /// about a path that lies as many levels below the root as are reported,
    /// or more.
    pub fn run(self, root: &FsNode) -> (rx: ShrRx)
        requires
            fits(*root, true),
        ensures
            rx.pending() == self.trace(*root).events,
            rx.paths() == self.trace(*root).paths,
            rx.paths().no_duplicates(),
            rx.paths().len() <= usize::MAX,
            names_only(
                rx.paths(),
                rx.pending(),
                near(self.path(), *root, self.levels() as nat, true, MAX_LINK_FOLLOWS as nat),
            ),
    {
        let mut shared = Shared { path_mgr: self.path_interner, tx: Vec::new(), follow_links: true };
        let path_id = shared.path_mgr.intern(self.path.as_str());
        proof {
            PathId::lemma_view_of(path_id);
        }
        let task = ShrTask { path_id, parent: None, remain_report_depth: self.max_depth };
        let ghost table = shared.path_mgr@;
        let _ = task.exec(root, &mut shared);
        proof {
            lemma_scan_extends_table(*root, task, true, MAX_LINK_FOLLOWS as nat, table);
            lemma_reports_near_paths_only(
                *root,
                task,
                true,
                MAX_LINK_FOLLOWS as nat,
                table,
                self.path@,
            );
        }
        let rx = ShrRx { path_interner: shared.path_mgr, rx: shared.tx, next: 0 };
        assert(rx.pending() =~= shared.tx@);
        rx
    }
}

/// What a scan of `root`, found at `path`, leaves behind when it starts with
/// an empty table, reports `levels` levels and follows links.
pub open spec fn scan_trace(path: Seq<char>, root: FsNode, levels: usize) -> Trace {
    let table = interned(Seq::empty(), path);
    traced(
        root,
        ShrTask {
            parent: None,
            path_id: PathId::of(id_in(table, path) as usize),
            remain_report_depth: levels,
        },
        true,
        MAX_LINK_FOLLOWS as nat,
        table,
    )
}

/// A shortcut to run the [`Shr`]: the scan of `root`, found at `dir`, with
/// every level reported.
pub fn shr(dir: String, root: &FsNode) -> (rx: ShrRx)
    requires
        fits(*root, true),
    ensures
        rx.pending() == scan_trace(dir@, *root, usize::MAX).events,
        rx.paths() == scan_trace(dir@, *root, usize::MAX).paths,
        rx.paths().no_duplicates(),
        rx.paths().len() <= usize::MAX,
{
    Shr::new(dir).run(root)
}

} // verus!
