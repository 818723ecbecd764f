//! The line-oriented reporter: what it is asked for and what it prints.

use crate::event::{shown, text_of, EventDisplay, EventModel, EventText, ImmutPath};
use crate::scan::{fits, scan_trace, shr, FsNode, ShrRx};
use crate::utils::{decimal, decimal_text};
use vstd::prelude::*;

verus! {

/// The output format.
#[derive(Debug, Clone, Copy, PartialEq, Eq)]
pub enum Format {
    /// Every event on a line of its own, as a JSON object.
    Json,
    /// Every finished entry on a line of its own, with its size.
    Du,
}

/// Whether two texts read the same.
fn reads(text: &str, word: &str) -> (same: bool)
    ensures
        same == (text@ == word@),
{
    let len = text.unicode_len();
    if len != word.unicode_len() {
        return false;
    }
    let mut i: usize = 0;
    while i < len
        invariant
            i <= len,
            len == text@.len(),
            len == word@.len(),
            forall|j: int| 0 <= j < i ==> text@[j] == word@[j],
        decreases len - i,
    {
        if text.get_char(i) != word.get_char(i) {
            return false;
        }
        i += 1;
    }
    assert(text@ =~= word@);
    true
}

impl Format {
    /// The word that selects the format.
    pub open spec fn name(self) -> Seq<char> {
        match self {
            Format::Json => seq!['j', 's', 'o', 'n'],
            Format::Du => seq!['d', 'u'],
        }
    }

    /// The word that selects the format.
    pub fn to_string(&self) -> (word: String)
        ensures
            word@ == self.name(),
    {
        proof {
            reveal_strlit("json");
            reveal_strlit("du");
        }
        match self {
            Format::Json => {
                let word = String::from_str("json");
                assert(word@ =~= self.name());
                word
            },
            Format::Du => {
                let word = String::from_str("du");
                assert(word@ =~= self.name());
                word
            },
        }
    }

    /// The format that a word selects, if it selects one.
    pub fn parse(word: &str) -> (format: Option<Format>)
        ensures
            match format {
                Some(format) => word@ == format.name(),
                None => word@ != Format::Json.name() && word@ != Format::Du.name(),
            },
    {
        proof {
            reveal_strlit("json");
            reveal_strlit("du");
            assert("json"@ =~= Format::Json.name());
            assert("du"@ =~= Format::Du.name());
        }
        if reads(word, "json") {
            Some(Format::Json)
        } else if reads(word, "du") {
            Some(Format::Du)
        } else {
            None
        }
    }
}

impl Default for Format {
    fn default() -> (format: Self)
        ensures
            format == Format::Du,
    {
        Format::Du
    }
}

/// What the reporter is asked for.
#[derive(Debug)]
pub struct Args {
    /// The directory to scan.
    pub dir: String,
    /// The output format.
    pub format: Format,
}

impl Args {
    /// Builds the `shr` instance: runs the scan on `root`, which is what the
    /// file system answered about the directory, with every level reported.
    pub fn build(self, root: &FsNode) -> (built: (ShrRx, Format))
        requires
            fits(*root, true),
        ensures
            built.0.pending() == scan_trace(self.dir@, *root, usize::MAX).events,
            built.0.paths() == scan_trace(self.dir@, *root, usize::MAX).paths,
            built.1 == self.format,
    {
        let rx = shr(self.dir, root);
        (rx, self.format)
    }
}

/// What the `du` format reports of an event: the path, the size and the
/// number of files of what is finished, the number being zero for a file;
/// nothing of a directory that was only found.
pub open spec fn du_report(event: EventText) -> Option<(Option<Seq<char>>, u64, usize)> {
    match event {
        EventModel::Dir { .. } => None,
        EventModel::FileFinish { path, size, .. } => Some((path, size, 0)),
        EventModel::DirFinish { path, size, num_files } => Some((path, size, num_files)),
    }
}

/// What the `du` format reports of an event: see `du_report`.
pub fn du_entry(event: EventDisplay) -> (entry: Option<(Option<ImmutPath>, u64, usize)>)
    ensures
        match entry {
            Some((path, size, num_files)) => du_report(shown(event)) == Some(
                (text_of(path), size, num_files),
            ),
            None => du_report(shown(event)) is None,
        },
{
    match event {
        EventModel::Dir { .. } => None,
        EventModel::FileFinish { path, size, .. } => Some((path, size, 0)),
        EventModel::DirFinish { path, size, num_files } => Some((path, size, num_files)),
    }
}

/// The line that reports an entry: the path, a blank and the size, followed,
/// where the entry holds files, by a comma, a blank, their number and
/// ` file(s)`.
pub open spec fn report_line(path: Seq<char>, size: Seq<char>, num_files: usize) -> Seq<char> {
    if num_files > 0 {
        path + seq![' '] + size + seq![',', ' '] + decimal_text(num_files as nat) + seq![
            ' ',
            'f',
            'i',
            'l',
            'e',
            '(',
            's',
            ')',
        ]
    } else {
        path + seq![' '] + size
    }
}

/// The line that reports an entry, without the line break: see
/// `report_line`. `size` is the size as it is to be read. An entry without a
/// path is not reported.
pub fn report_entry(path: Option<ImmutPath>, size: &str, num_files: usize) -> (line: Option<String>)
    ensures
        match path {
            Some(path) => line matches Some(l) && l@ == report_line(path@, size@, num_files),
            None => line is None,
        },
{
    let Some(path) = path else {
        return None;
    };
    proof {
        reveal_strlit(" ");
        reveal_strlit(", ");
        reveal_strlit(" file(s)");
    }
    let mut line = path.0;
    line.append(" ");
    line.append(size);
    assert(line@ =~= path@ + seq![' '] + size@);
    if num_files > 0 {
        line.append(", ");
        let count = decimal(num_files as u64);
        line.append(count.as_str());
        line.append(" file(s)");
        assert(line@ =~= report_line(path@, size@, num_files));
    }
    Some(line)
}

} // verus!
