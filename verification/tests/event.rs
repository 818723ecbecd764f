use shr::event::{EventDisplay, EventModel, ImmutPath};
use shr::path::PathId;
use shr::scan::{shr, DirEntry, FsNode};

fn path(text: &str) -> Option<ImmutPath> {
    Some(ImmutPath(String::from(text)))
}

#[test]
fn display_writes_the_paths_out() {
    let root = FsNode::Dir {
        entries: Some(vec![DirEntry {
            path: String::from("root/a"),
            node: FsNode::File { size: 10 },
        }]),
    };
    let mut rx = shr(String::from("root"), &root);
    let mut shown: Vec<EventDisplay> = Vec::new();
    while let Some(event) = rx.recv() {
        shown.push(event.display());
    }
    assert_eq!(
        shown,
        vec![
            EventModel::Dir { path: path("root"), parent: None },
            EventModel::FileFinish { path: path("root/a"), parent: path("root"), size: 10 },
            EventModel::DirFinish { path: path("root"), size: 10, num_files: 1 },
        ]
    );
}

#[test]
fn to_raw_gives_the_event_with_its_ids() {
    let root = FsNode::File { size: 3 };
    let mut rx = shr(String::from("root"), &root);
    let event = rx.recv().unwrap();
    assert_eq!(event.data, EventModel::FileFinish { path: PathId::from_raw(1), parent: None, size: 3 });
    assert_eq!(
        event.to_raw(),
        EventModel::FileFinish { path: PathId::from_raw(1), parent: None, size: 3 }
    );
}

#[test]
fn display_of_an_unknown_id_has_no_path() {
    let root = FsNode::File { size: 3 };
    let rx = shr(String::from("root"), &root);
    let known = shr::event::EventRef {
        rx: &rx,
        data: EventModel::Dir { path: PathId::from_raw(1), parent: Some(PathId::from_raw(9)) },
    };
    assert_eq!(known.display(), EventModel::Dir { path: path("root"), parent: None });
    let unknown = shr::event::EventRef {
        rx: &rx,
        data: EventModel::DirFinish { path: PathId::from_raw(2), size: 1, num_files: 1 },
    };
    assert_eq!(unknown.display(), EventModel::DirFinish { path: None, size: 1, num_files: 1 });
}

#[test]
fn display_event_asks_the_interner_it_is_given() {
    let mut interner = shr::path::PathInterner::new();
    let a = interner.intern("a");
    let b = interner.intern("a/b");
    assert_eq!(
        shr::event::display_event(
            &interner,
            EventModel::FileFinish { path: b, parent: Some(a), size: 4 }
        ),
        EventModel::FileFinish { path: path("a/b"), parent: path("a"), size: 4 }
    );
    assert_eq!(
        shr::event::display_event(
            &interner,
            EventModel::Dir { path: PathId::from_raw(3), parent: None }
        ),
        EventModel::Dir { path: None, parent: None }
    );
}
