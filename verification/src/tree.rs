//! A directory tree as a walk meets it, and what a walk over it yields.
//!
//! A [`Tree`] fixes every answer that the file system gives during one walk.
//! [`answers_from`] lists those answers in the order in which the walk asks
//! for them, [`outcome_of`] says what the walk is to end with, and
//! [`lemma_walk_of_tree`] proves that it does.

use crate::record::{EntryKind, EntrySpec, FileRecord};
use crate::walk::{
    after_listing, after_size, after_stat, begin, fresh, next_step, record_of, ListSpec, SizeSpec,
    TraversalSpec, WalkSpec,
};
use vstd::prelude::*;

verus! {

/// What lies at a path, and below it. `E` is the error type of the caller of
/// the walk.
pub enum Tree<E> {
    /// A regular file, with its size in bytes if it can be read.
    File { path: Seq<char>, size: Option<u64> },
    /// A directory with its entries, in the order in which they are listed.
    Directory { path: Seq<char>, entries: Seq<Tree<E>> },
    /// A directory whose entries cannot be listed, with the error that says
    /// so.
    Sealed { path: Seq<char>, error: E },
    /// Anything else, with the number of bytes that reading it gives, if it
    /// can be read.
    Other { path: Seq<char>, size: Option<u64> },
}

impl<E> Tree<E> {
    pub open spec fn path(self) -> Seq<char> {
        match self {
            Tree::File { path, .. } => path,
            Tree::Directory { path, .. } => path,
            Tree::Sealed { path, .. } => path,
            Tree::Other { path, .. } => path,
        }
    }

    /// What the tree is listed as in the directory that holds it, and what
    /// a look at its path finds.
    pub open spec fn kind(self) -> EntryKind {
        match self {
            Tree::File { .. } => EntryKind::File,
            Tree::Directory { .. } => EntryKind::Directory,
            Tree::Sealed { .. } => EntryKind::Directory,
            Tree::Other { .. } => EntryKind::Other,
        }
    }

    /// The entry under which the tree is listed.
    pub open spec fn entry(self) -> EntrySpec {
        EntrySpec { path: self.path(), kind: self.kind() }
    }
}

/// The listing of a directory that holds `entries`.
pub open spec fn listing_of<E>(entries: Seq<Tree<E>>) -> Seq<EntrySpec> {
    Seq::new(entries.len(), |i: int| entries[i].entry())
}

/// The records owed for one entry of a directory: a file gives its own, a
/// directory those of its entries if the walk is recursive, and anything
/// else gives none.
pub open spec fn files_of<E>(tree: Tree<E>, recursive: bool) -> Seq<FileRecord>
    decreases tree,
{
    match tree {
        Tree::File { path, size } => seq![record_of(path, size)],
        Tree::Directory { entries, .. } => if recursive {
            files_in(entries, recursive)
        } else {
            Seq::empty()
        },
        Tree::Sealed { .. } => Seq::empty(),
        Tree::Other { .. } => Seq::empty(),
    }
}

/// The records owed for the entries of a directory, in the order of the
/// entries.
pub open spec fn files_in<E>(entries: Seq<Tree<E>>, recursive: bool) -> Seq<FileRecord>
    decreases entries,
{
    if entries.len() == 0 {
        Seq::empty()
    } else {
        files_of(entries.first(), recursive) + files_in(entries.drop_first(), recursive)
    }
}

/// What a walk that starts at `tree` is to end with: the record of the one
/// file, the records of the entries of the directory, or the error of a
/// directory that cannot be listed.
pub open spec fn outcome_of<E>(tree: Tree<E>, recursive: bool) -> Result<Seq<FileRecord>, E> {
    match tree {
        Tree::File { path, size } => Ok(seq![record_of(path, size)]),
        Tree::Directory { entries, .. } => Ok(files_in(entries, recursive)),
        Tree::Sealed { error, .. } => Err(error),
        Tree::Other { path, size } => Ok(seq![record_of(path, size)]),
    }
}

/// One answer of the file system, with the path that it is about.
pub enum Answer<E> {
    /// What the path is, or why it cannot be looked at.
    Stat { path: Seq<char>, found: Result<EntryKind, E> },
    /// The entries of the directory, or why it cannot be listed.
    List { path: Seq<char>, listing: Result<Seq<EntrySpec>, E> },
    /// The size of the file, if it can be read.
    Measure { path: Seq<char>, size: Option<u64> },
}

/// The walk after `answer`, if that answers the question on which the walk
/// waits.
pub open spec fn answered<E>(walk: TraversalSpec<E>, answer: Answer<E>) -> Option<
    TraversalSpec<E>,
> {
    match (walk, answer) {
        (TraversalSpec::Stat(pending), Answer::Stat { path, found }) => if pending.path == path {
            Some(after_stat(pending, found))
        } else {
            None
        },
        (TraversalSpec::List(pending), Answer::List { path, listing }) => if pending.path
            == path {
            Some(after_listing(pending, listing))
        } else {
            None
        },
        (TraversalSpec::Measure(pending), Answer::Measure { path, size }) => if pending.path
            == path {
            Some(after_size(pending, size))
        } else {
            None
        },
        _ => None,
    }
}

/// The walk after a run of answers, if each of them in turn answers the
/// question on which the walk then waits.
pub open spec fn replay<E>(walk: TraversalSpec<E>, answers: Seq<Answer<E>>) -> Option<
    TraversalSpec<E>,
>
    decreases answers.len(),
{
    if answers.len() == 0 {
        Some(walk)
    } else {
        match answered(walk, answers.first()) {
            Some(next) => replay(next, answers.drop_first()),
            None => None,
        }
    }
}

/// The answers that one entry of a directory gives rise to.
pub open spec fn answers_of<E>(tree: Tree<E>, recursive: bool) -> Seq<Answer<E>>
    decreases tree,
{
    match tree {
        Tree::File { path, size } => seq![Answer::Measure { path, size }],
        Tree::Directory { path, entries } => if recursive {
            seq![Answer::List { path, listing: Ok(listing_of(entries)) }] + answers_in(
                entries,
                recursive,
            )
        } else {
            Seq::empty()
        },
        Tree::Sealed { path, error } => if recursive {
            seq![Answer::List { path, listing: Err(error) }]
        } else {
            Seq::empty()
        },
        Tree::Other { .. } => Seq::empty(),
    }
}

/// The answers that the entries of a directory give rise to, one entry
/// after the other.
pub open spec fn answers_in<E>(entries: Seq<Tree<E>>, recursive: bool) -> Seq<Answer<E>>
    decreases entries,
{
    if entries.len() == 0 {
        Seq::empty()
    } else {
        answers_of(entries.first(), recursive) + answers_in(entries.drop_first(), recursive)
    }
}

/// The answers that the file system gives to a walk that starts at `tree`,
/// in the order in which the walk asks for them.
pub open spec fn answers_from<E>(tree: Tree<E>, recursive: bool) -> Seq<Answer<E>> {
    match tree {
        Tree::File { path, size } => seq![
            Answer::Stat { path, found: Ok(EntryKind::File) },
            Answer::Measure { path, size },
        ],
        Tree::Directory { path, entries } => seq![
            Answer::Stat { path, found: Ok(EntryKind::Directory) },
            Answer::List { path, listing: Ok(listing_of(entries)) },
        ] + answers_in(entries, recursive),
        Tree::Sealed { path, error } => seq![
            Answer::Stat { path, found: Ok(EntryKind::Directory) },
            Answer::List { path, listing: Err(error) },
        ],
        Tree::Other { path, size } => seq![
            Answer::Stat { path, found: Ok(EntryKind::Other) },
            Answer::Measure { path, size },
        ],
    }
}

/// Replaying two runs of answers, one after the other, is replaying the
/// second from where the first ends.
pub proof fn lemma_replay_concat<E>(
    walk: TraversalSpec<E>,
    first: Seq<Answer<E>>,
    second: Seq<Answer<E>>,
)
    ensures
        replay(walk, first + second) == match replay(walk, first) {
            Some(next) => replay(next, second),
            None => None,
        },
    decreases first.len(),
{
    if first.len() > 0 {
        assert((first + second).drop_first() =~= first.drop_first() + second);
        match answered(walk, first.first()) {
            Some(next) => lemma_replay_concat(next, first.drop_first(), second),
            None => {},
        }
    }
}

/// Replaying one answer is taking it.
pub proof fn lemma_replay_one<E>(walk: TraversalSpec<E>, answer: Answer<E>)
    ensures
        replay(walk, seq![answer]) == answered(walk, answer),
{
    let one = seq![answer];
    match answered(walk, answer) {
        Some(next) => {
            assert(replay(next, one.drop_first()) == Some(next));
        },
        None => {},
    }
}

/// `walk` with `entries` to visit before all that it had to visit.
pub open spec fn with_entries(walk: WalkSpec, entries: Seq<EntrySpec>) -> WalkSpec {
    WalkSpec { recursive: walk.recursive, queue: entries + walk.queue, files: walk.files }
}

/// `walk` with `files` recorded behind those that it had found.
pub open spec fn with_files(walk: WalkSpec, files: Seq<FileRecord>) -> WalkSpec {
    WalkSpec { recursive: walk.recursive, queue: walk.queue, files: walk.files + files }
}

/// A walk that has the entries of a directory to visit first asks what
/// [`answers_in`] answers, records what [`files_in`] owes, and goes on with
/// what it had to visit before.
pub proof fn lemma_walk_of_entries<E>(entries: Seq<Tree<E>>, walk: WalkSpec)
    ensures
        replay(
            next_step::<E>(with_entries(walk, listing_of(entries))),
            answers_in(entries, walk.recursive),
        ) == Some(next_step::<E>(with_files(walk, files_in(entries, walk.recursive)))),
    decreases entries,
{
    let recursive = walk.recursive;
    if entries.len() > 0 {
        let first = entries.first();
        let rest = entries.drop_first();
        let here = next_step::<E>(with_entries(walk, listing_of(entries)));
        let after = with_entries(walk, listing_of(rest));
        assert(with_entries(walk, listing_of(entries)).queue.drop_first() =~= after.queue);
        assert(files_in(entries, recursive) == files_of(first, recursive) + files_in(
            rest,
            recursive,
        ));
        lemma_replay_concat(here, answers_of(first, recursive), answers_in(rest, recursive));
        match first {
            Tree::File { path, size } => {
                // The file is measured and recorded, then the other entries are visited.
                let recorded = with_files(walk, seq![record_of(path, size)]);
                assert(recorded.files =~= walk.files.push(record_of(path, size)));
                lemma_replay_one(here, Answer::<E>::Measure { path, size });
                lemma_walk_of_entries(rest, recorded);
                assert(with_files(recorded, files_in(rest, recursive)).files =~= with_files(
                    walk,
                    files_in(entries, recursive),
                ).files);
            },
            Tree::Directory { path, entries: below } => {
                if recursive {
                    // The directory is listed and its entries are visited, then the others.
                    let listing: Result<Seq<EntrySpec>, E> = Ok(listing_of(below));
                    let found = with_files(walk, files_in(below, recursive));
                    lemma_replay_one(here, Answer::List { path, listing });
                    lemma_replay_concat(
                        here,
                        seq![Answer::List { path, listing }],
                        answers_in(below, recursive),
                    );
                    lemma_walk_of_entries(below, after);
                    lemma_walk_of_entries(rest, found);
                    assert(with_files(found, files_in(rest, recursive)).files =~= with_files(
                        walk,
                        files_in(entries, recursive),
                    ).files);
                } else {
                    lemma_walk_of_entries(rest, walk);
                }
            },
            Tree::Sealed { path, error } => {
                // Whether the directory is asked for or not, nothing comes of it.
                let listing: Result<Seq<EntrySpec>, E> = Err(error);
                lemma_replay_one(here, Answer::List { path, listing });
                lemma_walk_of_entries(rest, walk);
            },
            Tree::Other { .. } => {
                lemma_walk_of_entries(rest, walk);
            },
        }
    }
}

/// A walk that starts at `tree` asks what [`answers_from`] answers, one
/// question for each answer and in that order, and ends with what
/// [`outcome_of`] says.
pub proof fn lemma_walk_of_tree<E>(tree: Tree<E>, recursive: bool)
    ensures
        replay(begin::<E>(tree.path(), recursive), answers_from(tree, recursive)) == Some(
            TraversalSpec::Done(outcome_of(tree, recursive)),
        ),
{
    let start = begin::<E>(tree.path(), recursive);
    let answers = answers_from(tree, recursive);
    let found: Result<EntryKind, E> = Ok(tree.kind());
    let stat = seq![Answer::Stat { path: tree.path(), found }];
    let nothing = fresh(recursive);
    lemma_replay_one(start, Answer::Stat { path: tree.path(), found });
    match tree {
        Tree::File { path, size } => {
            let measure = seq![Answer::<E>::Measure { path, size }];
            assert(answers =~= stat + measure);
            lemma_replay_concat(start, stat, measure);
            lemma_measured_alone::<E>(path, size, recursive);
        },
        Tree::Other { path, size } => {
            let measure = seq![Answer::<E>::Measure { path, size }];
            assert(answers =~= stat + measure);
            lemma_replay_concat(start, stat, measure);
            lemma_measured_alone::<E>(path, size, recursive);
        },
        Tree::Sealed { path, error } => {
            let listing: Result<Seq<EntrySpec>, E> = Err(error);
            let list = seq![Answer::List { path, listing }];
            let waiting = TraversalSpec::<E>::List(ListSpec { walk: nothing, path, root: true });
            assert(answers =~= stat + list);
            lemma_replay_concat(start, stat, list);
            lemma_replay_one(waiting, Answer::List { path, listing });
        },
        Tree::Directory { path, entries } => {
            let listing: Result<Seq<EntrySpec>, E> = Ok(listing_of(entries));
            let list = seq![Answer::List { path, listing }];
            let below = answers_in(entries, recursive);
            let waiting = TraversalSpec::<E>::List(ListSpec { walk: nothing, path, root: true });
            assert(answers =~= stat + (list + below));
            lemma_replay_concat(start, stat, list + below);
            lemma_replay_concat(waiting, list, below);
            lemma_replay_one(waiting, Answer::List { path, listing });
            lemma_walk_of_entries::<E>(entries, nothing);
            assert(with_files(nothing, files_in(entries, recursive)).files =~= files_in(
                entries,
                recursive,
            ));
        },
    }
}

/// A walk that waits for the size of the one file it has to visit ends with
/// the record of that file.
proof fn lemma_measured_alone<E>(path: Seq<char>, size: Option<u64>, recursive: bool)
    ensures
        replay(
            TraversalSpec::<E>::Measure(SizeSpec { walk: fresh(recursive), path }),
            seq![Answer::<E>::Measure { path, size }],
        ) == Some(TraversalSpec::<E>::Done(Ok(seq![record_of(path, size)]))),
{
    let waiting = TraversalSpec::<E>::Measure(SizeSpec { walk: fresh(recursive), path });
    assert(Seq::<FileRecord>::empty().push(record_of(path, size)) =~= seq![record_of(path, size)]);
    lemma_replay_one(waiting, Answer::<E>::Measure { path, size });
}

} // verus!
