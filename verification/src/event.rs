//! The events that a scan yields.

use crate::path::{resolved, PathId, PathInterner};
use crate::scan::ShrRx;
use vstd::prelude::*;

verus! {

/// A immutable path reference which can be shown.
#[derive(Debug, Clone, PartialEq, Eq)]
pub struct ImmutPath(pub String);

impl View for ImmutPath {
    type V = Seq<char>;

    open spec fn view(&self) -> Seq<char> {
        self.0@
    }
}

/// A raw event yield by `shr`.
pub type Event = EventModel<PathId, Option<PathId>>;

/// The struct to display paths in event.
pub type EventDisplay = EventModel<Option<ImmutPath>, Option<ImmutPath>>;

/// An event with its paths written out, as contracts speak of it.
pub type EventText = EventModel<Option<Seq<char>>, Option<Seq<char>>>;

/// A event yield by `shr`.
#[derive(Debug, Clone, Copy, PartialEq, Eq)]
pub enum EventModel<ThisP, ParentP> {
    /// A directory is found.
    Dir {
        /// The path to the entry.
        path: ThisP,
        /// The parent directory.
        parent: ParentP,
    },
    /// A file is finished.
    FileFinish {
        /// The path to the entry.
        path: ThisP,
        /// The parent directory.
        parent: ParentP,
        /// The size of the file in bytes, recursively.
        size: u64,
    },
    /// A directory is finished.
    DirFinish {
        /// The path to the entry.
        path: ThisP,
        /// The size of the directory in bytes, recursively.
        size: u64,
        /// The number of files in the directory.
        num_files: usize,
    },
}

/// The path that an event is about.
pub open spec fn subject(event: Event) -> PathId {
    match event {
        EventModel::Dir { path, .. } => path,
        EventModel::FileFinish { path, .. } => path,
        EventModel::DirFinish { path, .. } => path,
    }
}

/// What an optional path of a displayed event reads.
pub open spec fn text_of(path: Option<ImmutPath>) -> Option<Seq<char>> {
    match path {
        Some(p) => Some(p@),
        None => None,
    }
}

/// A displayed event with each path as the characters it reads.
pub open spec fn shown(event: EventDisplay) -> EventText {
    match event {
        EventModel::Dir { path, parent } => EventModel::Dir {
            path: text_of(path),
            parent: text_of(parent),
        },
        EventModel::FileFinish { path, parent, size } => EventModel::FileFinish {
            path: text_of(path),
            parent: text_of(parent),
            size,
        },
        EventModel::DirFinish { path, size, num_files } => EventModel::DirFinish {
            path: text_of(path),
            size,
            num_files,
        },
    }
}

/// The path that a table of interned paths has for an optional id: none for
/// no id, and none for an id that the table does not know.
pub open spec fn parent_text(items: Seq<Seq<char>>, parent: Option<PathId>) -> Option<Seq<char>> {
    match parent {
        Some(id) => resolved(items, id@ as int),
        None => None,
    }
}

/// An event with each id replaced by the path that `items` has for it.
pub open spec fn displayed(items: Seq<Seq<char>>, event: Event) -> EventText {
    match event {
        EventModel::Dir { path, parent } => EventModel::Dir {
            path: resolved(items, path@ as int),
            parent: parent_text(items, parent),
        },
        EventModel::FileFinish { path, parent, size } => EventModel::FileFinish {
            path: resolved(items, path@ as int),
            parent: parent_text(items, parent),
            size,
        },
        EventModel::DirFinish { path, size, num_files } => EventModel::DirFinish {
            path: resolved(items, path@ as int),
            size,
            num_files,
        },
    }
}

/// A event reference yield by `shr`.
pub struct EventRef<'a> {
    /// The reference to the path data.
    pub rx: &'a ShrRx,
    /// The raw owned data.
    pub data: Event,
}

impl EventRef<'_> {
    /// Converts to a raw event.
    pub fn to_raw(self) -> (event: Event)
        ensures
            event == self.data,
    {
        self.data
    }

    /// Collects path for display: each id of the event gives way to the path
    /// that the scan interned for it.
    pub fn display(&self) -> (event: EventDisplay)
        ensures
            shown(event) == displayed(self.rx.paths(), self.data),
    {
        display_event(self.rx.interner(), self.data)
    }
}

/// The path that `interner` has for `id`, ready to be shown.
fn shown_path(interner: &PathInterner, id: PathId) -> (path: Option<ImmutPath>)
    ensures
        text_of(path) == resolved(interner@, id@ as int),
{
    match interner.get(id) {
        Some(path) => Some(ImmutPath(path)),
        None => None,
    }
}

/// The path that `interner` has for the id of a parent, ready to be shown.
fn shown_parent(interner: &PathInterner, parent: Option<PathId>) -> (path: Option<ImmutPath>)
    ensures
        text_of(path) == parent_text(interner@, parent),
{
    match parent {
        Some(parent) => shown_path(interner, parent),
        None => None,
    }
}

/// An event for display: each id of the event gives way to the path that
/// `interner` has for it, and to none where it has none.
pub fn display_event(interner: &PathInterner, event: Event) -> (shown_event: EventDisplay)
    ensures
        shown(shown_event) == displayed(interner@, event),
{
    match event {
        EventModel::Dir { path, parent } => EventModel::Dir {
            path: shown_path(interner, path),
            parent: shown_parent(interner, parent),
        },
        EventModel::FileFinish { path, parent, size } => EventModel::FileFinish {
            path: shown_path(interner, path),
            parent: shown_parent(interner, parent),
            size,
        },
        EventModel::DirFinish { path, size, num_files } => EventModel::DirFinish {
            path: shown_path(interner, path),
            size,
            num_files,
        },
    }
}

} // verus!
