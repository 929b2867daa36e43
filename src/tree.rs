use vstd::prelude::*;

use crate::error::Mp3Error;
use crate::sniff::{has_marker, EntryClassification};
use crate::walker::{handled, listed_paths, listing_failures, repopulated, taken, yield_of, WalkAction, WalkerView};

verus! {

/// One entry of a directory tree as values.
pub enum FsNode {
    /// A directory that can be listed, with the paths of its entries.
    Dir(Seq<String>),
    /// A directory that cannot be listed.
    Unlistable,
    /// A regular file with its contents.
    File(Seq<u8>),
}

/// The tree is acyclic: every entry of a directory has a lower rank than the
/// directory itself.
pub open spec fn ranked(fs: Map<String, FsNode>, rank: Map<String, nat>) -> bool {
    forall|p: String, i: int|
        #![trigger fs[p]->Dir_0[i], rank[p]]
        fs.contains_key(p) && fs[p] is Dir && 0 <= i < fs[p]->Dir_0.len() ==> rank[fs[p]->Dir_0[i]]
            < rank[p]
}

pub open spec fn entry_count(fs: Map<String, FsNode>, p: String) -> nat {
    if fs.contains_key(p) && fs[p] is Dir {
        fs[p]->Dir_0.len()
    } else {
        0
    }
}

/// The qualifying files at or under `p`.
pub open spec fn qualifying(fs: Map<String, FsNode>, rank: Map<String, nat>, p: String) -> Set<String>
    decreases rank[p], entry_count(fs, p) + 1,
{
    if !fs.contains_key(p) {
        Set::empty()
    } else {
        match fs[p] {
            FsNode::File(bytes) => if has_marker(bytes) {
                set![p]
            } else {
                Set::empty()
            },
            FsNode::Unlistable => Set::empty(),
            FsNode::Dir(entries) => qualifying_among(fs, rank, p, entries.len()),
        }
    }
}

/// The qualifying files under the first `i` entries of directory `p`.
pub open spec fn qualifying_among(
    fs: Map<String, FsNode>,
    rank: Map<String, nat>,
    p: String,
    i: nat,
) -> Set<String>
    decreases rank[p], i,
{
    if i == 0 || !fs.contains_key(p) || !(fs[p] is Dir) || i > fs[p]->Dir_0.len() {
        Set::empty()
    } else {
        let c = fs[p]->Dir_0[i - 1];
        let rest = qualifying_among(fs, rank, p, (i - 1) as nat);
        if rank[c] < rank[p] {
            rest + qualifying(fs, rank, c)
        } else {
            rest
        }
    }
}

/// The qualifying files at or under any of the paths of `s`.
pub open spec fn qualifying_all(fs: Map<String, FsNode>, rank: Map<String, nat>, s: Seq<String>) -> Set<
    String,
>
    decreases s.len(),
{
    if s.len() == 0 {
        Set::empty()
    } else {
        qualifying_all(fs, rank, s.drop_last()) + qualifying(fs, rank, s.last())
    }
}

/// A classification that the tree bears out: a missing entry is unreadable,
/// any directory is a directory, a file qualifies exactly when it opens with
/// the marker.
pub open spec fn answers_entry(fs: Map<String, FsNode>, p: String, class: EntryClassification) -> bool {
    if !fs.contains_key(p) {
        class is Unreadable
    } else {
        match fs[p] {
            FsNode::File(bytes) => if has_marker(bytes) {
                class == EntryClassification::QualifyingFile
            } else {
                class == EntryClassification::NonQualifyingFile
            },
            _ => class == EntryClassification::Directory,
        }
    }
}

/// The listing of a directory whose entries were all readable.
pub open spec fn as_listing(entries: Seq<String>) -> Seq<Result<String, String>> {
    entries.map_values(|c: String| Ok::<String, String>(c))
}

/// A listing that the tree bears out: a listable directory gives its entries,
/// anything else fails.
pub open spec fn answers_listing(
    fs: Map<String, FsNode>,
    d: String,
    listing: Result<Seq<Result<String, String>>, String>,
) -> bool {
    if fs.contains_key(d) && fs[d] is Dir {
        listing == Ok::<Seq<Result<String, String>>, String>(
            as_listing(fs[d]->Dir_0),
        )
    } else {
        listing is Err
    }
}

/// The count of entries at or under `p`.
pub open spec fn tree_size(fs: Map<String, FsNode>, rank: Map<String, nat>, p: String) -> nat
    decreases rank[p], entry_count(fs, p) + 1,
{
    if fs.contains_key(p) && fs[p] is Dir {
        1 + size_among(fs, rank, p, fs[p]->Dir_0.len())
    } else {
        1
    }
}

/// The count of entries under the first `i` entries of directory `p`.
pub open spec fn size_among(fs: Map<String, FsNode>, rank: Map<String, nat>, p: String, i: nat) -> nat
    decreases rank[p], i,
{
    if i == 0 || !fs.contains_key(p) || !(fs[p] is Dir) || i > fs[p]->Dir_0.len() {
        0
    } else {
        let c = fs[p]->Dir_0[i - 1];
        let rest = size_among(fs, rank, p, (i - 1) as nat);
        if rank[c] < rank[p] {
            rest + tree_size(fs, rank, c)
        } else {
            rest
        }
    }
}

/// The count of entries at or under any of the paths of `s`.
pub open spec fn size_all(fs: Map<String, FsNode>, rank: Map<String, nat>, s: Seq<String>) -> nat
    decreases s.len(),
{
    if s.len() == 0 {
        0
    } else {
        size_all(fs, rank, s.drop_last()) + tree_size(fs, rank, s.last())
    }
}

/// A pending directory weighs one less than the same path as a pending entry,
/// so that moving an entry to the directories is progress too.
pub open spec fn dir_weight(fs: Map<String, FsNode>, rank: Map<String, nat>, s: Seq<String>) -> nat
    decreases s.len(),
{
    if s.len() == 0 {
        0
    } else {
        dir_weight(fs, rank, s.drop_last()) + (2 * tree_size(fs, rank, s.last()) - 1) as nat
    }
}

/// The work left in a walk of the tree: every step that the tree bears out
/// lowers it, so the walk of a finite, acyclic tree ends.
pub open spec fn work_left(fs: Map<String, FsNode>, rank: Map<String, nat>, v: WalkerView) -> nat {
    2 * size_all(fs, rank, v.files) + dir_weight(fs, rank, v.directories)
}

/// True when `p` names a regular file of the tree.
pub open spec fn is_file(fs: Map<String, FsNode>, p: String) -> bool {
    fs.contains_key(p) && fs[p] is File
}

/// What remains to be found: no pending directory is a file, and the
/// qualifying files under the pending directories and entries, together with
/// those already yielded, are all the qualifying files under the root.
pub open spec fn walk_accounts(
    fs: Map<String, FsNode>,
    rank: Map<String, nat>,
    root: String,
    v: WalkerView,
    yielded: Set<String>,
) -> bool {
    &&& forall|i: int| 0 <= i < v.directories.len() ==> !is_file(fs, #[trigger] v.directories[i])
    &&& yielded + qualifying_all(fs, rank, v.directories) + qualifying_all(fs, rank, v.files)
        == qualifying(fs, rank, root)
}

proof fn lemma_all_push(fs: Map<String, FsNode>, rank: Map<String, nat>, s: Seq<String>, p: String)
    ensures
        qualifying_all(fs, rank, s.push(p)) == qualifying_all(fs, rank, s) + qualifying(fs, rank, p),
{
    assert(s.push(p).drop_last() =~= s);
}

proof fn lemma_all_concat(fs: Map<String, FsNode>, rank: Map<String, nat>, a: Seq<String>, b: Seq<String>)
    ensures
        qualifying_all(fs, rank, a + b) == qualifying_all(fs, rank, a) + qualifying_all(fs, rank, b),
    decreases b.len(),
{
    if b.len() == 0 {
        assert(a + b =~= a);
        assert(qualifying_all(fs, rank, a) + Set::empty() =~= qualifying_all(fs, rank, a));
    } else {
        assert((a + b).drop_last() =~= a + b.drop_last());
        lemma_all_concat(fs, rank, a, b.drop_last());
        assert(qualifying_all(fs, rank, a + b) =~= qualifying_all(fs, rank, a) + qualifying_all(
            fs,
            rank,
            b,
        ));
    }
}

proof fn lemma_among_entries(fs: Map<String, FsNode>, rank: Map<String, nat>, d: String, i: nat)
    requires
        ranked(fs, rank),
        fs.contains_key(d),
        fs[d] is Dir,
        i <= fs[d]->Dir_0.len(),
    ensures
        qualifying_among(fs, rank, d, i) == qualifying_all(fs, rank, fs[d]->Dir_0.take(i as int)),
    decreases i,
{
    let entries = fs[d]->Dir_0;
    if i == 0 {
        assert(entries.take(0) =~= Seq::<String>::empty());
    } else {
        lemma_among_entries(fs, rank, d, (i - 1) as nat);
        assert(entries.take(i as int).drop_last() =~= entries.take(i - 1));
        let c = entries[i - 1];
        assert(rank[c] < rank[d]);
    }
}

proof fn lemma_listed_ok(entries: Seq<String>)
    ensures
        listed_paths(as_listing(entries)) == entries,
        forall|dir: String|
            #[trigger] listing_failures(dir, as_listing(entries))
                == Seq::<Mp3Error>::empty(),
    decreases entries.len(),
{
    let m = as_listing(entries);
    if entries.len() == 0 {
        assert(m.len() == 0);
        assert forall|dir: String| #[trigger]
            listing_failures(dir, m) == Seq::<Mp3Error>::empty() by {}
    } else {
        lemma_listed_ok(entries.drop_last());
        assert(m.drop_last() =~= as_listing(entries.drop_last()));
        assert(entries.drop_last().push(entries.last()) =~= entries);
        assert forall|dir: String| #[trigger]
            listing_failures(dir, m) == Seq::<Mp3Error>::empty() by {
            assert(listing_failures(dir, as_listing(entries.drop_last()))
                == Seq::<Mp3Error>::empty());
        }
    }
}

proof fn lemma_size_concat(fs: Map<String, FsNode>, rank: Map<String, nat>, a: Seq<String>, b: Seq<String>)
    ensures
        size_all(fs, rank, a + b) == size_all(fs, rank, a) + size_all(fs, rank, b),
    decreases b.len(),
{
    if b.len() == 0 {
        assert(a + b =~= a);
    } else {
        assert((a + b).drop_last() =~= a + b.drop_last());
        lemma_size_concat(fs, rank, a, b.drop_last());
    }
}

proof fn lemma_size_entries(fs: Map<String, FsNode>, rank: Map<String, nat>, d: String, i: nat)
    requires
        ranked(fs, rank),
        fs.contains_key(d),
        fs[d] is Dir,
        i <= fs[d]->Dir_0.len(),
    ensures
        size_among(fs, rank, d, i) == size_all(fs, rank, fs[d]->Dir_0.take(i as int)),
    decreases i,
{
    let entries = fs[d]->Dir_0;
    if i == 0 {
        assert(entries.take(0) =~= Seq::<String>::empty());
    } else {
        lemma_size_entries(fs, rank, d, (i - 1) as nat);
        assert(entries.take(i as int).drop_last() =~= entries.take(i - 1));
        let c = entries[i - 1];
        assert(rank[c] < rank[d]);
    }
}

proof fn lemma_size_positive(fs: Map<String, FsNode>, rank: Map<String, nat>, p: String)
    ensures
        tree_size(fs, rank, p) >= 1,
{
}

/// Classifying an entry as the tree bears out lowers the work left.
pub proof fn lemma_classify_progress(
    fs: Map<String, FsNode>,
    rank: Map<String, nat>,
    v: WalkerView,
    class: EntryClassification,
)
    requires
        taken(v).1 is Classify,
        answers_entry(fs, taken(v).1->Classify_0, class),
    ensures
        work_left(fs, rank, handled(taken(v).0, taken(v).1->Classify_0, class)) < work_left(
            fs,
            rank,
            v,
        ),
{
    let p = v.files.last();
    lemma_size_positive(fs, rank, p);
    let d2 = v.directories.push(p);
    assert(d2.drop_last() =~= v.directories);
}

/// Listing a directory as the tree bears out lowers the work left.
pub proof fn lemma_list_progress(
    fs: Map<String, FsNode>,
    rank: Map<String, nat>,
    v: WalkerView,
    listing: Result<Seq<Result<String, String>>, String>,
)
    requires
        ranked(fs, rank),
        taken(v).1 is List,
        answers_listing(fs, taken(v).1->List_0, listing),
    ensures
        work_left(fs, rank, repopulated(taken(v).0, taken(v).1->List_0, listing)) < work_left(
            fs,
            rank,
            v,
        ),
{
    let d = v.directories.last();
    let v1 = taken(v).0;
    assert(v.files.len() == 0);
    assert(size_all(fs, rank, v.files) == 0);
    lemma_size_positive(fs, rank, d);
    if fs.contains_key(d) && fs[d] is Dir {
        let entries = fs[d]->Dir_0;
        lemma_listed_ok(entries);
        lemma_size_entries(fs, rank, d, entries.len());
        assert(entries.take(entries.len() as int) =~= entries);
        lemma_size_concat(fs, rank, v1.files, entries);
    }
}

/// A new walk of `root`, a path that is not a file, accounts for every
/// qualifying file under it.
pub proof fn lemma_walk_starts(fs: Map<String, FsNode>, rank: Map<String, nat>, root: String)
    requires
        !is_file(fs, root),
    ensures
        walk_accounts(
            fs,
            rank,
            root,
            WalkerView { directories: seq![root], files: Seq::empty(), errors: Seq::empty() },
            Set::empty(),
        ),
{
    lemma_all_push(fs, rank, Seq::empty(), root);
    assert(seq![root] =~= Seq::<String>::empty().push(root));
    assert(Set::<String>::empty() + (Set::<String>::empty() + qualifying(fs, rank, root))
        + Set::<String>::empty() =~= qualifying(fs, rank, root));
}

/// Classifying an entry as the tree bears out loses no qualifying file and
/// yields none that is not: what is yielded moves from pending to found.
pub proof fn lemma_classify_step(
    fs: Map<String, FsNode>,
    rank: Map<String, nat>,
    root: String,
    v: WalkerView,
    yielded: Set<String>,
    class: EntryClassification,
)
    requires
        walk_accounts(fs, rank, root, v, yielded),
        taken(v).1 is Classify,
        answers_entry(fs, taken(v).1->Classify_0, class),
    ensures
        ({
            let p = taken(v).1->Classify_0;
            let found = match yield_of(p, class) {
                Some(q) => yielded.insert(q),
                None => yielded,
            };
            walk_accounts(fs, rank, root, handled(taken(v).0, p, class), found)
        }),
{
    let p = v.files.last();
    let v1 = taken(v).0;
    assert(v.files.drop_last().push(p) =~= v.files);
    lemma_all_push(fs, rank, v.files.drop_last(), p);
    lemma_all_push(fs, rank, v.directories, p);
    let qd = qualifying_all(fs, rank, v.directories);
    let qf = qualifying_all(fs, rank, v1.files);
    let qp = qualifying(fs, rank, p);
    assert(yielded + qd + (qf + qp) == qualifying(fs, rank, root));
    match class {
        EntryClassification::Directory => {
            assert(yielded + (qd + qp) + qf =~= yielded + qd + (qf + qp));
        },
        EntryClassification::QualifyingFile => {
            assert(qp =~= set![p]);
            assert(yielded.insert(p) + qd + qf =~= yielded + qd + (qf + qp));
        },
        _ => {
            assert(qp =~= Set::empty());
            assert(yielded + qd + qf =~= yielded + qd + (qf + qp));
        },
    }
}

/// Listing a directory as the tree bears out loses no qualifying file: those
/// under the directory are now those under its pending entries. A directory
/// that cannot be listed had none to lose.
pub proof fn lemma_list_step(
    fs: Map<String, FsNode>,
    rank: Map<String, nat>,
    root: String,
    v: WalkerView,
    yielded: Set<String>,
    listing: Result<Seq<Result<String, String>>, String>,
)
    requires
        ranked(fs, rank),
        walk_accounts(fs, rank, root, v, yielded),
        taken(v).1 is List,
        answers_listing(fs, taken(v).1->List_0, listing),
    ensures
        walk_accounts(fs, rank, root, repopulated(taken(v).0, taken(v).1->List_0, listing), yielded),
{
    let d = v.directories.last();
    let v1 = taken(v).0;
    assert(v.files.len() == 0);
    assert(v.directories.drop_last().push(d) =~= v.directories);
    lemma_all_push(fs, rank, v.directories.drop_last(), d);
    let qd = qualifying_all(fs, rank, v1.directories);
    let qf = qualifying_all(fs, rank, v.files);
    let qp = qualifying(fs, rank, d);
    assert(qf =~= Set::empty());
    assert(yielded + (qd + qp) + qf == qualifying(fs, rank, root));
    if fs.contains_key(d) && fs[d] is Dir {
        let entries = fs[d]->Dir_0;
        lemma_listed_ok(entries);
        lemma_among_entries(fs, rank, d, entries.len());
        assert(entries.take(entries.len() as int) =~= entries);
        lemma_all_concat(fs, rank, v1.files, entries);
        assert(qp == qualifying_all(fs, rank, entries));
        assert(v1.files + entries =~= entries);
        assert(yielded + qd + qualifying_all(fs, rank, v1.files + entries) =~= yielded + (qd + qp)
            + qf);
    } else {
        assert(qp =~= Set::empty());
        assert(yielded + qd + qf =~= yielded + (qd + qp) + qf);
    }
}

/// A directory that cannot be listed has no qualifying file under it, and
/// its failed listing adds exactly one failure, naming it, while the pending
/// directories and entries stay as they were, so its siblings are still
/// visited.
pub proof fn lemma_unlistable_directory(
    fs: Map<String, FsNode>,
    rank: Map<String, nat>,
    v: WalkerView,
    d: String,
    cause: String,
)
    requires
        fs.contains_key(d),
        fs[d] is Unlistable,
    ensures
        qualifying(fs, rank, d) == Set::<String>::empty(),
        repopulated(v, d, Err(cause)).errors == v.errors.push(Mp3Error::Io { path: d, cause }),
        repopulated(v, d, Err(cause)).files == v.files,
        repopulated(v, d, Err(cause)).directories == v.directories,
{
}

/// Once nothing is pending, what was yielded is exactly the set of
/// qualifying files under the root.
pub proof fn lemma_walk_ends(
    fs: Map<String, FsNode>,
    rank: Map<String, nat>,
    root: String,
    v: WalkerView,
    yielded: Set<String>,
)
    requires
        walk_accounts(fs, rank, root, v, yielded),
        taken(v).1 is Exhausted,
    ensures
        yielded == qualifying(fs, rank, root),
{
    assert(yielded + Set::empty() + Set::empty() =~= yielded);
}

/// The classification the tree gives `p`; a missing entry is unreadable,
/// for a reason the tree does not say.
pub open spec fn tree_class(fs: Map<String, FsNode>, p: String) -> EntryClassification {
    if !fs.contains_key(p) {
        EntryClassification::Unreadable(arbitrary())
    } else {
        match fs[p] {
            FsNode::File(bytes) => if has_marker(bytes) {
                EntryClassification::QualifyingFile
            } else {
                EntryClassification::NonQualifyingFile
            },
            _ => EntryClassification::Directory,
        }
    }
}

/// The listing the tree gives `d`; a failure for a reason it does not say.
pub open spec fn tree_listing(fs: Map<String, FsNode>, d: String) -> Result<
    Seq<Result<String, String>>,
    String,
> {
    if fs.contains_key(d) && fs[d] is Dir {
        Ok(as_listing(fs[d]->Dir_0))
    } else {
        Err(arbitrary())
    }
}

/// The walker's initial state for `root`.
pub open spec fn start(root: String) -> WalkerView {
    WalkerView { directories: seq![root], files: Seq::empty(), errors: Seq::empty() }
}

/// A whole walk from state `v`, each step answered as the tree bears out:
/// the paths yielded on the way, and the state it ends in.
pub open spec fn walk_run(fs: Map<String, FsNode>, rank: Map<String, nat>, v: WalkerView) -> (
    Set<String>,
    WalkerView,
)
    decreases work_left(fs, rank, v),
    when ranked(fs, rank)
    via walk_run_decreases
{
    let (v1, action) = taken(v);
    match action {
        WalkAction::Exhausted => (Set::empty(), v),
        WalkAction::Classify(p) => {
            let class = tree_class(fs, p);
            let rest = walk_run(fs, rank, handled(v1, p, class));
            match yield_of(p, class) {
                Some(q) => (rest.0.insert(q), rest.1),
                None => rest,
            }
        },
        WalkAction::List(d) => walk_run(fs, rank, repopulated(v1, d, tree_listing(fs, d))),
    }
}

#[via_fn]
proof fn walk_run_decreases(fs: Map<String, FsNode>, rank: Map<String, nat>, v: WalkerView) {
    match taken(v).1 {
        WalkAction::Classify(p) => lemma_classify_progress(fs, rank, v, tree_class(fs, p)),
        WalkAction::List(d) => lemma_list_progress(fs, rank, v, tree_listing(fs, d)),
        WalkAction::Exhausted => {},
    }
}

proof fn lemma_run_accounts(
    fs: Map<String, FsNode>,
    rank: Map<String, nat>,
    root: String,
    v: WalkerView,
    yielded: Set<String>,
)
    requires
        ranked(fs, rank),
        walk_accounts(fs, rank, root, v, yielded),
    ensures
        yielded + walk_run(fs, rank, v).0 == qualifying(fs, rank, root),
        taken(walk_run(fs, rank, v).1).1 is Exhausted,
    decreases work_left(fs, rank, v),
{
    match taken(v).1 {
        WalkAction::Exhausted => {
            lemma_walk_ends(fs, rank, root, v, yielded);
            assert(yielded + Set::empty() =~= yielded);
        },
        WalkAction::Classify(p) => {
            let class = tree_class(fs, p);
            lemma_classify_step(fs, rank, root, v, yielded, class);
            lemma_classify_progress(fs, rank, v, class);
            let next = handled(taken(v).0, p, class);
            let found = match yield_of(p, class) {
                Some(q) => yielded.insert(q),
                None => yielded,
            };
            lemma_run_accounts(fs, rank, root, next, found);
            let rest = walk_run(fs, rank, next).0;
            if class == EntryClassification::QualifyingFile {
                assert(yielded + rest.insert(p) =~= yielded.insert(p) + rest);
            }
        },
        WalkAction::List(d) => {
            let listing = tree_listing(fs, d);
            lemma_list_step(fs, rank, root, v, yielded, listing);
            lemma_list_progress(fs, rank, v, listing);
            lemma_run_accounts(fs, rank, root, repopulated(taken(v).0, d, listing), yielded);
        },
    }
}

/// A walk of a finite, acyclic tree from a root that is not a file, with
/// every step answered as the tree bears out, comes to an end, and the paths
/// it yields are exactly the files at or under the root that open with the
/// marker: none is skipped and no other path is yielded.
pub proof fn lemma_walk_yields_qualifying(fs: Map<String, FsNode>, rank: Map<String, nat>, root: String)
    requires
        ranked(fs, rank),
        !is_file(fs, root),
    ensures
        walk_run(fs, rank, start(root)).0 == qualifying(fs, rank, root),
        walk_run(fs, rank, start(root)).1.files.len() == 0,
        walk_run(fs, rank, start(root)).1.directories.len() == 0,
{
    lemma_walk_starts(fs, rank, root);
    lemma_run_accounts(fs, rank, root, start(root), Set::empty());
    assert(Set::<String>::empty() + walk_run(fs, rank, start(root)).0 =~= walk_run(
        fs,
        rank,
        start(root),
    ).0);
}

/// A failure the tree accounts for: an I/O failure naming a directory that
/// cannot be listed, or an entry that is not there.
pub open spec fn failure_explained(fs: Map<String, FsNode>, e: Mp3Error) -> bool {
    match e {
        Mp3Error::Io { path, cause: _ } => !fs.contains_key(path) || fs[path] is Unlistable,
        _ => false,
    }
}

proof fn lemma_run_failures(fs: Map<String, FsNode>, rank: Map<String, nat>, v: WalkerView)
    requires
        ranked(fs, rank),
        forall|i: int| 0 <= i < v.directories.len() ==> !is_file(fs, #[trigger] v.directories[i]),
    ensures
        walk_run(fs, rank, v).1.errors.len() >= v.errors.len(),
        walk_run(fs, rank, v).1.errors.subrange(0, v.errors.len() as int) == v.errors,
        forall|i: int|
            v.errors.len() <= i < walk_run(fs, rank, v).1.errors.len() ==> failure_explained(
                fs,
                #[trigger] walk_run(fs, rank, v).1.errors[i],
            ),
    decreases work_left(fs, rank, v),
{
    let v1 = taken(v).0;
    match taken(v).1 {
        WalkAction::Exhausted => {
            assert(v.errors.subrange(0, v.errors.len() as int) =~= v.errors);
        },
        WalkAction::Classify(p) => {
            let class = tree_class(fs, p);
            lemma_classify_progress(fs, rank, v, class);
            let next = handled(v1, p, class);
            assert forall|i: int| 0 <= i < next.directories.len() implies !is_file(
                fs,
                #[trigger] next.directories[i],
            ) by {
                if i < v.directories.len() {
                    assert(next.directories[i] == v.directories[i]);
                }
            }
            lemma_run_failures(fs, rank, next);
            let end = walk_run(fs, rank, next).1.errors;
            assert(end.subrange(0, v.errors.len() as int) =~= next.errors.subrange(
                0,
                v.errors.len() as int,
            ));
            assert(next.errors.subrange(0, v.errors.len() as int) =~= v.errors);
            assert forall|i: int| v.errors.len() <= i < end.len() implies failure_explained(
                fs,
                #[trigger] end[i],
            ) by {
                if i < next.errors.len() {
                    assert(end[i] == end.subrange(0, next.errors.len() as int)[i]);
                    assert(end[i] == next.errors[i]);
                }
            }
        },
        WalkAction::List(d) => {
            let listing = tree_listing(fs, d);
            lemma_list_progress(fs, rank, v, listing);
            let next = repopulated(v1, d, listing);
            assert(v.directories[v.directories.len() - 1] == d);
            if fs.contains_key(d) && fs[d] is Dir {
                lemma_listed_ok(fs[d]->Dir_0);
                assert(next.errors =~= v.errors);
            }
            assert forall|i: int| 0 <= i < next.directories.len() implies !is_file(
                fs,
                #[trigger] next.directories[i],
            ) by {
                assert(next.directories[i] == v.directories[i]);
            }
            lemma_run_failures(fs, rank, next);
            let end = walk_run(fs, rank, next).1.errors;
            assert(end.subrange(0, v.errors.len() as int) =~= next.errors.subrange(
                0,
                v.errors.len() as int,
            ));
            assert(next.errors.subrange(0, v.errors.len() as int) =~= v.errors);
            assert forall|i: int| v.errors.len() <= i < end.len() implies failure_explained(
                fs,
                #[trigger] end[i],
            ) by {
                if i < next.errors.len() {
                    assert(end[i] == end.subrange(0, next.errors.len() as int)[i]);
                    assert(end[i] == next.errors[i]);
                }
            }
        },
    }
}

/// In a walk of a finite, acyclic tree from a root that is not a file, every
/// failure recorded is an I/O failure naming a directory that cannot be
/// listed or an entry that is not there. With
/// `lemma_walk_yields_qualifying` and `lemma_unlistable_directory`: a
/// directory that cannot be listed adds failures and no path, and the
/// qualifying files beside and outside it are still all yielded.
pub proof fn lemma_walk_failures(fs: Map<String, FsNode>, rank: Map<String, nat>, root: String)
    requires
        ranked(fs, rank),
        !is_file(fs, root),
    ensures
        forall|i: int|
            0 <= i < walk_run(fs, rank, start(root)).1.errors.len() ==> failure_explained(
                fs,
                #[trigger] walk_run(fs, rank, start(root)).1.errors[i],
            ),
{
    assert(start(root).directories[0] == root);
    lemma_run_failures(fs, rank, start(root));
}

} // verus!
