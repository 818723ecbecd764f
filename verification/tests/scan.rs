use shr::event::{Event, EventModel};
use shr::path::{PathId, PathInterner};
use shr::scan::{
    contributed, join, shr, DirEntry, FsNode, Probe, Shared, Shr, ShrTask, Step, MAX_LINK_FOLLOWS,
};

fn file(path: &str, size: u64) -> DirEntry {
    DirEntry { path: String::from(path), node: FsNode::File { size } }
}

fn dir(path: &str, entries: Vec<DirEntry>) -> DirEntry {
    DirEntry { path: String::from(path), node: FsNode::Dir { entries: Some(entries) } }
}

fn link_to(node: FsNode) -> FsNode {
    FsNode::Link { target: Some(Box::new(node)) }
}

/// A root with the files `a` (10 bytes) and `b` (20 bytes) and the directory
/// `c`, which holds the file `d` (5 bytes).
fn small_tree() -> FsNode {
    FsNode::Dir {
        entries: Some(vec![
            file("root/a", 10),
            file("root/b", 20),
            dir("root/c", vec![file("root/c/d", 5)]),
        ]),
    }
}

fn id(raw: usize) -> PathId {
    PathId::from_raw(raw)
}

fn drain(mut rx: shr::scan::ShrRx) -> Vec<Event> {
    let mut events = Vec::new();
    while let Some(event) = rx.recv() {
        events.push(event.to_raw());
    }
    events
}

fn scan_with(levels: usize, node: &FsNode, follow_links: bool) -> (Option<(usize, u64)>, Vec<Event>, PathInterner) {
    let mut shared = Shared { path_mgr: PathInterner::new(), tx: Vec::new(), follow_links };
    let path_id = shared.path_mgr.intern("root");
    let task = ShrTask { parent: None, path_id, remain_report_depth: levels };
    assert!(node.totals(follow_links).is_some());
    let totals = task.exec(node, &mut shared);
    (totals, shared.tx, shared.path_mgr)
}

#[test]
fn scan_reports_every_entry_of_a_small_tree() {
    let root = small_tree();
    assert_eq!(root.totals(true), Some((3, 35)));
    let rx = shr(String::from("root"), &root);
    assert_eq!(rx.get_path(id(1)), Some(String::from("root")));
    assert_eq!(rx.get_path(id(2)), Some(String::from("root/a")));
    assert_eq!(rx.get_path(id(3)), Some(String::from("root/b")));
    assert_eq!(rx.get_path(id(4)), Some(String::from("root/c")));
    assert_eq!(rx.get_path(id(5)), Some(String::from("root/c/d")));
    assert_eq!(rx.get_path(id(6)), None);
    let events = drain(rx);
    assert_eq!(
        events,
        vec![
            EventModel::Dir { path: id(1), parent: None },
            EventModel::FileFinish { path: id(2), parent: Some(id(1)), size: 10 },
            EventModel::FileFinish { path: id(3), parent: Some(id(1)), size: 20 },
            EventModel::Dir { path: id(4), parent: Some(id(1)) },
            EventModel::FileFinish { path: id(5), parent: Some(id(4)), size: 5 },
            EventModel::DirFinish { path: id(4), size: 5, num_files: 1 },
            EventModel::DirFinish { path: id(1), size: 35, num_files: 3 },
        ]
    );
}

#[test]
fn scan_without_reported_levels_is_silent_and_still_measures() {
    let (totals, events, interner) = scan_with(0, &small_tree(), true);
    assert_eq!(totals, Some((3, 35)));
    assert!(events.is_empty());
    assert_eq!(interner.get(id(5)), Some(String::from("root/c/d")));
}

#[test]
fn scan_reports_no_more_levels_than_asked_for() {
    let (totals, events, _) = scan_with(1, &small_tree(), true);
    assert_eq!(totals, Some((3, 35)));
    assert_eq!(
        events,
        vec![
            EventModel::Dir { path: id(1), parent: None },
            EventModel::DirFinish { path: id(1), size: 35, num_files: 3 },
        ]
    );

    let (totals, events, _) = scan_with(2, &small_tree(), true);
    assert_eq!(totals, Some((3, 35)));
    assert_eq!(
        events,
        vec![
            EventModel::Dir { path: id(1), parent: None },
            EventModel::FileFinish { path: id(2), parent: Some(id(1)), size: 10 },
            EventModel::FileFinish { path: id(3), parent: Some(id(1)), size: 20 },
            EventModel::Dir { path: id(4), parent: Some(id(1)) },
            EventModel::DirFinish { path: id(4), size: 5, num_files: 1 },
            EventModel::DirFinish { path: id(1), size: 35, num_files: 3 },
        ]
    );
}

#[test]
fn max_depth_is_the_number_of_levels_that_are_reported() {
    let root = small_tree();
    let nothing = Shr::new(String::from("root")).with_max_depth(0).run(&root);
    assert_eq!(nothing.get_path(id(5)), Some(String::from("root/c/d")));
    assert!(drain(nothing).is_empty());
    let only_root = drain(Shr::new(String::from("root")).with_max_depth(1).run(&root));
    assert_eq!(
        only_root,
        vec![
            EventModel::Dir { path: id(1), parent: None },
            EventModel::DirFinish { path: id(1), size: 35, num_files: 3 },
        ]
    );
    let one_below = drain(Shr::new(String::from("root")).with_max_depth(2).run(&root));
    assert_eq!(one_below.len(), 6);
    assert!(one_below.iter().all(|e| match e {
        EventModel::Dir { path, .. }
        | EventModel::FileFinish { path, .. }
        | EventModel::DirFinish { path, .. } => path.into_raw() <= 4,
    }));
    let all = drain(Shr::new(String::from("root")).run(&root));
    assert_eq!(all.len(), 7);
    let deep = drain(Shr::new(String::from("root")).with_max_depth(3).run(&root));
    assert_eq!(deep, all);
    let unbounded = drain(Shr::new(String::from("root")).with_max_depth(usize::MAX).run(&root));
    assert_eq!(unbounded, all);
}

#[test]
fn a_task_says_what_to_send() {
    let task = ShrTask { parent: Some(id(1)), path_id: id(2), remain_report_depth: 1 };
    assert_eq!(task.found(), Some(EventModel::Dir { path: id(2), parent: Some(id(1)) }));
    assert_eq!(
        task.file_finished(9),
        Some(EventModel::FileFinish { path: id(2), parent: Some(id(1)), size: 9 })
    );
    assert_eq!(
        task.dir_finished((3, 35)),
        Some(EventModel::DirFinish { path: id(2), size: 35, num_files: 3 })
    );
    let child = task.child_task(id(7));
    assert_eq!(child.parent, Some(id(2)));
    assert_eq!(child.path_id, id(7));
    assert_eq!(child.remain_report_depth, 0);
    assert_eq!(child.found(), None);
    assert_eq!(child.file_finished(9), None);
    assert_eq!(child.dir_finished((3, 35)), None);
    assert_eq!(child.child_task(id(8)).remain_report_depth, 0);
    let top = ShrTask { parent: None, path_id: id(1), remain_report_depth: usize::MAX };
    assert_eq!(top.child_task(id(2)).remain_report_depth, usize::MAX - 1);
}

#[test]
fn totals_are_joined_where_they_fit() {
    assert_eq!(join((0, 0), (0, 0)), Some((0, 0)));
    assert_eq!(join((1, 10), (2, 25)), Some((3, 35)));
    assert_eq!(join((2, 25), (1, 10)), Some((3, 35)));
    assert_eq!(join((usize::MAX - 1, u64::MAX - 1), (1, 1)), Some((usize::MAX, u64::MAX)));
    assert_eq!(join((usize::MAX, 0), (1, 0)), None);
    assert_eq!(join((0, u64::MAX), (0, 1)), None);
    assert_eq!(join((1, 1), (usize::MAX, u64::MAX)), None);
}

#[test]
fn sending_appends_to_the_events() {
    let mut shared = Shared { path_mgr: PathInterner::new(), tx: Vec::new(), follow_links: false };
    shared.send(None);
    assert!(shared.tx.is_empty());
    let first = EventModel::Dir { path: id(1), parent: None };
    let second = EventModel::DirFinish { path: id(1), size: 0, num_files: 0 };
    shared.send(Some(first));
    shared.send(None);
    shared.send(Some(second));
    assert_eq!(shared.tx, vec![first, second]);
    assert!(!shared.follow_links);
}

#[test]
fn the_receiver_lends_the_interner_of_the_scan() {
    let root = small_tree();
    let rx = shr(String::from("root"), &root);
    let interner = rx.interner();
    assert_eq!(interner.get(id(1)), Some(String::from("root")));
    assert_eq!(interner.get(id(5)), Some(String::from("root/c/d")));
    assert_eq!(interner.get(id(6)), None);
}

#[test]
fn a_single_file_is_one_event() {
    let (totals, events, _) = scan_with(usize::MAX, &FsNode::File { size: 9 }, true);
    assert_eq!(totals, Some((1, 9)));
    assert_eq!(events, vec![EventModel::FileFinish { path: id(1), parent: None, size: 9 }]);
}

#[test]
fn an_empty_directory_is_found_and_finished() {
    let (totals, events, _) = scan_with(5, &FsNode::Dir { entries: Some(vec![]) }, true);
    assert_eq!(totals, Some((0, 0)));
    assert_eq!(
        events,
        vec![
            EventModel::Dir { path: id(1), parent: None },
            EventModel::DirFinish { path: id(1), size: 0, num_files: 0 },
        ]
    );
}

#[test]
fn what_cannot_be_read_adds_nothing_and_stops_nothing() {
    let root = FsNode::Dir {
        entries: Some(vec![
            DirEntry { path: String::from("root/gone"), node: FsNode::Unreadable },
            DirEntry { path: String::from("root/locked"), node: FsNode::Dir { entries: None } },
            DirEntry { path: String::from("root/pipe"), node: FsNode::Other },
            DirEntry { path: String::from("root/dangling"), node: FsNode::Link { target: None } },
            file("root/a", 7),
        ]),
    };
    let (totals, events, _) = scan_with(usize::MAX, &root, true);
    assert_eq!(totals, Some((1, 7)));
    assert_eq!(
        events,
        vec![
            EventModel::Dir { path: id(1), parent: None },
            EventModel::Dir { path: id(3), parent: Some(id(1)) },
            EventModel::FileFinish { path: id(6), parent: Some(id(1)), size: 7 },
            EventModel::DirFinish { path: id(1), size: 7, num_files: 1 },
        ]
    );

    let (totals, events, _) = scan_with(usize::MAX, &FsNode::Unreadable, true);
    assert_eq!(totals, None);
    assert!(events.is_empty());

    let (totals, events, _) = scan_with(usize::MAX, &FsNode::Dir { entries: None }, true);
    assert_eq!(totals, None);
    assert_eq!(events, vec![EventModel::Dir { path: id(1), parent: None }]);

    let (totals, events, _) = scan_with(usize::MAX, &FsNode::Other, true);
    assert_eq!(totals, Some((0, 0)));
    assert!(events.is_empty());
}

#[test]
fn a_followed_link_counts_as_its_target() {
    let root = FsNode::Dir {
        entries: Some(vec![
            DirEntry { path: String::from("root/to-file"), node: link_to(FsNode::File { size: 3 }) },
            DirEntry {
                path: String::from("root/to-dir"),
                node: link_to(FsNode::Dir { entries: Some(vec![file("elsewhere/x", 4)]) }),
            },
        ]),
    };
    let (totals, events, interner) = scan_with(usize::MAX, &root, true);
    assert_eq!(totals, Some((2, 7)));
    assert_eq!(
        events,
        vec![
            EventModel::Dir { path: id(1), parent: None },
            EventModel::FileFinish { path: id(2), parent: Some(id(1)), size: 3 },
            EventModel::Dir { path: id(3), parent: Some(id(1)) },
            EventModel::FileFinish { path: id(4), parent: Some(id(3)), size: 4 },
            EventModel::DirFinish { path: id(3), size: 4, num_files: 1 },
            EventModel::DirFinish { path: id(1), size: 7, num_files: 2 },
        ]
    );
    assert_eq!(interner.get(id(3)), Some(String::from("root/to-dir")));
    assert_eq!(interner.get(id(4)), Some(String::from("elsewhere/x")));

    let (totals, events, _) = scan_with(usize::MAX, &root, false);
    assert_eq!(totals, Some((0, 0)));
    assert_eq!(
        events,
        vec![
            EventModel::Dir { path: id(1), parent: None },
            EventModel::DirFinish { path: id(1), size: 0, num_files: 0 },
        ]
    );
}

#[test]
fn a_chain_of_links_is_followed_up_to_the_limit() {
    let mut within = FsNode::File { size: 11 };
    for _ in 0..MAX_LINK_FOLLOWS {
        within = link_to(within);
    }
    assert_eq!(within.totals(true), Some((1, 11)));
    let (totals, events, _) = scan_with(usize::MAX, &within, true);
    assert_eq!(totals, Some((1, 11)));
    assert_eq!(events, vec![EventModel::FileFinish { path: id(1), parent: None, size: 11 }]);

    let beyond = link_to(within);
    assert_eq!(beyond.totals(true), Some((0, 0)));
    let (totals, events, _) = scan_with(usize::MAX, &beyond, true);
    assert_eq!(totals, Some((0, 0)));
    assert!(events.is_empty());
}

#[test]
fn each_entry_of_a_directory_has_the_whole_limit_of_links() {
    let mut chain = FsNode::File { size: 1 };
    for _ in 0..MAX_LINK_FOLLOWS {
        chain = link_to(chain);
    }
    let inner = FsNode::Dir { entries: Some(vec![DirEntry { path: String::from("x"), node: chain }]) };
    let mut outer = inner;
    for _ in 0..MAX_LINK_FOLLOWS {
        outer = link_to(outer);
    }
    let (totals, _, _) = scan_with(usize::MAX, &outer, true);
    assert_eq!(totals, Some((1, 1)));
}

#[test]
fn the_same_path_under_two_directories_has_one_id() {
    let root = FsNode::Dir {
        entries: Some(vec![
            dir("root/x", vec![file("shared", 1)]),
            dir("root/y", vec![file("shared", 2)]),
        ]),
    };
    let (totals, events, _) = scan_with(usize::MAX, &root, true);
    assert_eq!(totals, Some((2, 3)));
    assert_eq!(events[2], EventModel::FileFinish { path: id(3), parent: Some(id(2)), size: 1 });
    assert_eq!(events[5], EventModel::FileFinish { path: id(3), parent: Some(id(4)), size: 2 });
}

#[test]
fn totals_that_cannot_be_held_are_not_given() {
    let root = FsNode::Dir {
        entries: Some(vec![file("a", u64::MAX), file("b", 1)]),
    };
    assert_eq!(root.totals(true), None);
    let nested = FsNode::Dir { entries: Some(vec![DirEntry { path: String::from("d"), node: root }]) };
    assert_eq!(nested.totals(true), None);
    let edge = FsNode::Dir {
        entries: Some(vec![file("a", u64::MAX - 1), file("b", 1)]),
    };
    assert_eq!(edge.totals(true), Some((2, u64::MAX)));
    let behind_a_link = FsNode::Dir {
        entries: Some(vec![
            file("a", u64::MAX),
            DirEntry { path: String::from("l"), node: link_to(FsNode::File { size: 1 }) },
        ]),
    };
    assert_eq!(behind_a_link.totals(true), None);
    assert_eq!(behind_a_link.totals(false), Some((1, u64::MAX)));
}

#[test]
fn dir_task_interns_the_entry_and_goes_one_level_down() {
    let mut shared = Shared { path_mgr: PathInterner::new(), tx: Vec::new(), follow_links: true };
    let root = shared.path_mgr.intern("root");
    let task = ShrTask { parent: None, path_id: root, remain_report_depth: 2 };
    let entry = file("root/a", 1);
    let child = task.dir_task(&entry, &mut shared);
    assert_eq!(child.parent, Some(root));
    assert_eq!(child.path_id, id(2));
    assert_eq!(child.remain_report_depth, 1);
    let grandchild = child.dir_task(&entry, &mut shared);
    assert_eq!(grandchild.path_id, id(2));
    assert_eq!(grandchild.parent, Some(id(2)));
    assert_eq!(grandchild.remain_report_depth, 0);
    let below = grandchild.dir_task(&entry, &mut shared);
    assert_eq!(below.remain_report_depth, 0);
    assert!(shared.tx.is_empty());
}

#[test]
fn the_receiver_hands_out_events_oldest_first() {
    let root = small_tree();
    let mut rx = shr(String::from("root"), &root);
    let first = rx.recv().map(|e| e.to_raw());
    assert_eq!(first, Some(EventModel::Dir { path: id(1), parent: None }));
    let second = rx.recv().map(|e| e.to_raw());
    assert_eq!(second, Some(EventModel::FileFinish { path: id(2), parent: Some(id(1)), size: 10 }));
    for _ in 0..5 {
        assert!(rx.recv().is_some());
    }
    assert!(rx.recv().is_none());
    assert!(rx.recv().is_none());
}

#[test]
fn a_step_follows_from_one_look() {
    let task = ShrTask { parent: Some(id(1)), path_id: id(2), remain_report_depth: 3 };
    let silent = ShrTask { parent: Some(id(1)), path_id: id(2), remain_report_depth: 0 };
    assert_eq!(task.step(Probe::Unreadable, true, 40), (None, Step::Done(None)));
    assert_eq!(
        task.step(Probe::File { size: 8 }, true, 40),
        (
            Some(EventModel::FileFinish { path: id(2), parent: Some(id(1)), size: 8 }),
            Step::Done(Some((1, 8)))
        )
    );
    assert_eq!(silent.step(Probe::File { size: 8 }, true, 40), (None, Step::Done(Some((1, 8)))));
    let found = Some(EventModel::Dir { path: id(2), parent: Some(id(1)) });
    assert_eq!(task.step(Probe::Dir { listed: true }, false, 0), (found, Step::List));
    assert_eq!(task.step(Probe::Dir { listed: false }, true, 40), (found, Step::Done(None)));
    assert_eq!(silent.step(Probe::Dir { listed: true }, true, 40), (None, Step::List));
    assert_eq!(task.step(Probe::Link { resolved: true }, true, 40), (None, Step::Follow(39)));
    assert_eq!(task.step(Probe::Link { resolved: true }, true, 1), (None, Step::Follow(0)));
    let leaf = (None, Step::Done(Some((0, 0))));
    assert_eq!(task.step(Probe::Link { resolved: true }, true, 0), leaf);
    assert_eq!(task.step(Probe::Link { resolved: true }, false, 40), leaf);
    assert_eq!(task.step(Probe::Link { resolved: false }, true, 40), leaf);
    assert_eq!(task.step(Probe::Other, true, 40), leaf);
}

#[test]
fn a_look_at_an_answer_keeps_its_kind() {
    assert_eq!(FsNode::Unreadable.probe(), Probe::Unreadable);
    assert_eq!(FsNode::File { size: 4 }.probe(), Probe::File { size: 4 });
    assert_eq!(FsNode::Dir { entries: None }.probe(), Probe::Dir { listed: false });
    assert_eq!(small_tree().probe(), Probe::Dir { listed: true });
    assert_eq!(FsNode::Link { target: None }.probe(), Probe::Link { resolved: false });
    assert_eq!(link_to(FsNode::Other).probe(), Probe::Link { resolved: true });
    assert_eq!(FsNode::Other.probe(), Probe::Other);
    assert_eq!(contributed(None), (0, 0));
    assert_eq!(contributed(Some((2, 9))), (2, 9));
}
