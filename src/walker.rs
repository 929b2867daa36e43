use vstd::prelude::*;

use crate::error::Mp3Error;
use crate::sniff::EntryClassification;

verus! {

/// The walker's state as values: the directories still to expand, the
/// entries of the last expanded directories still to classify (both taken
/// from the end), and the failures met so far.
pub struct WalkerView {
    pub directories: Seq<String>,
    pub files: Seq<String>,
    pub errors: Seq<Mp3Error>,
}

/// The filesystem work the walker asks for next.
pub enum WalkAction {
    /// Stat the entry (and read its header if it is a regular file), then
    /// hand the outcome to `handle_entry`.
    Classify(String),
    /// List the directory, then hand the outcome to `repopulate_files`.
    List(String),
    /// Nothing is left to visit.
    Exhausted,
}

/// The paths of a directory listing that could be read, in listing order.
pub open spec fn listed_paths(entries: Seq<Result<String, String>>) -> Seq<String>
    decreases entries.len(),
{
    if entries.len() == 0 {
        Seq::empty()
    } else {
        let rest = listed_paths(entries.drop_last());
        match entries.last() {
            Ok(p) => rest.push(p),
            Err(_) => rest,
        }
    }
}

/// One failure for each entry of the listing of `dir` that could not be read.
pub open spec fn listing_failures(dir: String, entries: Seq<Result<String, String>>) -> Seq<Mp3Error>
    decreases entries.len(),
{
    if entries.len() == 0 {
        Seq::empty()
    } else {
        let rest = listing_failures(dir, entries.drop_last());
        match entries.last() {
            Ok(_) => rest,
            Err(cause) => rest.push(Mp3Error::Io { path: dir, cause }),
        }
    }
}

/// The state after `next_action`, and the action it hands out.
pub open spec fn taken(v: WalkerView) -> (WalkerView, WalkAction) {
    if v.files.len() > 0 {
        (WalkerView { files: v.files.drop_last(), ..v }, WalkAction::Classify(v.files.last()))
    } else if v.directories.len() > 0 {
        (
            WalkerView { directories: v.directories.drop_last(), ..v },
            WalkAction::List(v.directories.last()),
        )
    } else {
        (v, WalkAction::Exhausted)
    }
}

/// What `handle_entry` hands back: the path, exactly when it qualifies.
pub open spec fn yield_of(path: String, class: EntryClassification) -> Option<String> {
    if class == EntryClassification::QualifyingFile {
        Some(path)
    } else {
        None
    }
}

/// The state after `handle_entry`: a directory is kept for expansion, an
/// unreadable entry adds one failure, anything else leaves the state alone.
pub open spec fn handled(v: WalkerView, path: String, class: EntryClassification) -> WalkerView {
    match class {
        EntryClassification::Directory => WalkerView {
            directories: v.directories.push(path),
            ..v
        },
        EntryClassification::Unreadable(cause) => WalkerView {
            errors: v.errors.push(Mp3Error::Io { path, cause }),
            ..v
        },
        _ => v,
    }
}

/// The state after `repopulate_files`: the readable entries of a listing are
/// pending, each unreadable one is a failure; a listing that failed is one
/// failure.
pub open spec fn repopulated(
    v: WalkerView,
    dir: String,
    listing: Result<Seq<Result<String, String>>, String>,
) -> WalkerView {
    match listing {
        Err(cause) => WalkerView { errors: v.errors.push(Mp3Error::Io { path: dir, cause }), ..v },
        Ok(entries) => WalkerView {
            files: v.files + listed_paths(entries),
            errors: v.errors + listing_failures(dir, entries),
            ..v
        },
    }
}

pub open spec fn listing_view(listing: Result<Vec<Result<String, String>>, String>) -> Result<
    Seq<Result<String, String>>,
    String,
> {
    match listing {
        Ok(entries) => Ok(entries@),
        Err(cause) => Err(cause),
    }
}

/// A depth-first walk over a directory tree, held as two explicit stacks so
/// that it can stop after any step and go on later. The walker decides; the
/// caller does the filesystem work it asks for and reports the outcome.
pub struct DirectoryWalker {
    directories: Vec<String>,
    files: Vec<String>,
    errors: Vec<Mp3Error>,
}

impl View for DirectoryWalker {
    type V = WalkerView;

    closed spec fn view(&self) -> WalkerView {
        WalkerView { directories: self.directories@, files: self.files@, errors: self.errors@ }
    }
}

impl DirectoryWalker {
    /// A walk of the tree under `root`: the root is the one directory to expand.
    pub fn new(root: String) -> (r: DirectoryWalker)
        ensures
            r@ == (WalkerView {
                directories: seq![root],
                files: Seq::empty(),
                errors: Seq::empty(),
            }),
    {
        let mut directories: Vec<String> = Vec::new();
        directories.push(root);
        let r = DirectoryWalker { directories, files: Vec::new(), errors: Vec::new() };
        assert(r@.directories =~= seq![root]);
        assert(r@.files =~= Seq::<String>::empty());
        assert(r@.errors =~= Seq::<Mp3Error>::empty());
        r
    }

    /// Records a failure met outside the walk itself, such as a file whose
    /// tags could not be decoded or stored; the walk goes on.
    pub fn record_failure(&mut self, e: Mp3Error)
        ensures
            final(self)@ == (WalkerView { errors: old(self)@.errors.push(e), ..old(self)@ }),
    {
        self.errors.push(e);
    }

    /// The failures met so far, in the order they were met.
    pub fn errors(&self) -> (r: &Vec<Mp3Error>)
        ensures
            r@ == self@.errors,
    {
        &self.errors
    }

    /// True when nothing is left to visit.
    pub fn is_exhausted(&self) -> (r: bool)
        ensures
            r == (self@.files.len() == 0 && self@.directories.len() == 0),
    {
        self.files.len() == 0 && self.directories.len() == 0
    }

    /// Takes the next piece of work: the last pending entry if any, else the
    /// last pending directory, else nothing is left.
    pub fn next_action(&mut self) -> (r: WalkAction)
        ensures
            (final(self)@, r) == taken(old(self)@),
    {
        if let Some(path) = self.files.pop() {
            return WalkAction::Classify(path);
        }
        match self.directories.pop() {
            Some(dirpath) => WalkAction::List(dirpath),
            None => WalkAction::Exhausted,
        }
    }

    /// Acts on the classification of one entry: a directory is kept for later
    /// expansion, a failure is recorded, a qualifying file is handed back.
    pub fn handle_entry(&mut self, path: String, class: EntryClassification) -> (r: Option<String>)
        ensures
            r == yield_of(path, class),
            final(self)@ == handled(old(self)@, path, class),
    {
        match class {
            EntryClassification::Unreadable(cause) => {
                self.errors.push(Mp3Error::Io { path, cause });
                None
            },
            EntryClassification::Directory => {
                self.directories.push(path);
                None
            },
            EntryClassification::QualifyingFile => Some(path),
            EntryClassification::NonQualifyingFile => None,
        }
    }

    /// Acts on the listing of `dirpath`: on success its entries become the
    /// pending entries (each unreadable one recorded as a failure); on failure
    /// exactly one failure is recorded and nothing else changes, so the rest
    /// of the walk goes on.
    pub fn repopulate_files(
        &mut self,
        dirpath: String,
        listing: Result<Vec<Result<String, String>>, String>,
    )
        ensures
            final(self)@ == repopulated(old(self)@, dirpath, listing_view(listing)),
    {
        match listing {
            Err(cause) => {
                self.errors.push(Mp3Error::Io { path: dirpath, cause });
            },
            Ok(entries) => {
                let ghost files0 = self.files@;
                let ghost errors0 = self.errors@;
                let mut i: usize = 0;
                while i < entries.len()
                    invariant
                        i <= entries@.len(),
                        self.directories@ == old(self).directories@,
                        self.files@ == files0 + listed_paths(entries@.take(i as int)),
                        self.errors@ == errors0 + listing_failures(dirpath, entries@.take(i as int)),
                    decreases entries@.len() - i,
                {
                    let ghost before = entries@.take(i as int);
                    assert(entries@.take(i as int + 1).drop_last() =~= before);
                    match &entries[i] {
                        Ok(p) => {
                            self.files.push(p.clone());
                        },
                        Err(cause) => {
                            self.errors.push(Mp3Error::Io { path: dirpath.clone(), cause: cause.clone() });
                        },
                    }
                    i = i + 1;
                }
                assert(entries@.take(entries@.len() as int) =~= entries@);
            },
        }
    }
}

} // verus!
