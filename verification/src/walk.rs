//! The walk over a path: which question to put to the file system next, and
//! what to record of each answer.
//!
//! A [`Traversal`] never touches the file system. It names the path that its
//! caller is to look at, takes the answer, and names the next one, until the
//! report is done:
//!
//! * [`Traversal::Stat`] asks what the path given to [`Traversal::start`] is;
//! * [`Traversal::List`] asks for the entries of a directory;
//! * [`Traversal::Measure`] asks for the size of a file;
//! * [`Traversal::Done`] holds the report, or the error that ended the walk.
//!
//! The contracts are stated over [`TraversalSpec`] by the functions
//! [`begin`], [`after_stat`], [`after_listing`] and [`after_size`].

use crate::record::{entries_view, Entry, EntryKind, EntrySpec, FileData, FileRecord, Report};
use std::collections::VecDeque;
use vstd::prelude::*;

verus! {

/// The entries that are still to be visited, the next one first, and the
/// files found so far.
#[derive(Debug, PartialEq, Eq)]
pub struct Walk {
    recursive: bool,
    queue: VecDeque<Entry>,
    report: Report,
}

/// The mathematical content of a [`Walk`].
pub struct WalkSpec {
    pub recursive: bool,
    pub queue: Seq<EntrySpec>,
    pub files: Seq<FileRecord>,
}

impl View for Walk {
    type V = WalkSpec;

    closed spec fn view(&self) -> WalkSpec {
        WalkSpec {
            recursive: self.recursive,
            queue: entries_view(self.queue@),
            files: self.report@,
        }
    }
}

/// A walk that waits to learn what its path is.
#[derive(Debug, PartialEq, Eq)]
pub struct PendingStat {
    path: String,
    recursive: bool,
}

/// The mathematical content of a [`PendingStat`].
pub struct StatSpec {
    pub path: Seq<char>,
    pub recursive: bool,
}

impl View for PendingStat {
    type V = StatSpec;

    closed spec fn view(&self) -> StatSpec {
        StatSpec { path: self.path@, recursive: self.recursive }
    }
}

/// A walk that waits for the entries of a directory.
#[derive(Debug, PartialEq, Eq)]
pub struct PendingList {
    walk: Walk,
    path: String,
    root: bool,
}

/// The mathematical content of a [`PendingList`]. `root` tells the directory
/// that the walk began at from those met below it.
pub struct ListSpec {
    pub walk: WalkSpec,
    pub path: Seq<char>,
    pub root: bool,
}

impl View for PendingList {
    type V = ListSpec;

    closed spec fn view(&self) -> ListSpec {
        ListSpec { walk: self.walk@, path: self.path@, root: self.root }
    }
}

/// A walk that waits for the size of a file.
#[derive(Debug, PartialEq, Eq)]
pub struct PendingSize {
    walk: Walk,
    path: String,
}

/// The mathematical content of a [`PendingSize`].
pub struct SizeSpec {
    pub walk: WalkSpec,
    pub path: Seq<char>,
}

impl View for PendingSize {
    type V = SizeSpec;

    closed spec fn view(&self) -> SizeSpec {
        SizeSpec { walk: self.walk@, path: self.path@ }
    }
}

/// A walk between two answers of the file system. `E` is the caller's error
/// type; the walk hands such a value back as it got it.
#[derive(Debug, PartialEq, Eq)]
pub enum Traversal<E> {
    Stat(PendingStat),
    List(PendingList),
    Measure(PendingSize),
    Done(Result<Report, E>),
}

/// The mathematical content of a [`Traversal`].
pub enum TraversalSpec<E> {
    Stat(StatSpec),
    List(ListSpec),
    Measure(SizeSpec),
    Done(Result<Seq<FileRecord>, E>),
}

impl<E> View for Traversal<E> {
    type V = TraversalSpec<E>;

    open spec fn view(&self) -> TraversalSpec<E> {
        match self {
            Traversal::Stat(pending) => TraversalSpec::Stat(pending@),
            Traversal::List(pending) => TraversalSpec::List(pending@),
            Traversal::Measure(pending) => TraversalSpec::Measure(pending@),
            Traversal::Done(Ok(report)) => TraversalSpec::Done(Ok(report@)),
            Traversal::Done(Err(error)) => TraversalSpec::Done(Err(*error)),
        }
    }
}

/// A walk of `path` before its first question.
pub open spec fn begin<E>(path: Seq<char>, recursive: bool) -> TraversalSpec<E> {
    TraversalSpec::Stat(StatSpec { path, recursive })
}

/// A walk with nothing to visit and nothing found.
pub open spec fn fresh(recursive: bool) -> WalkSpec {
    WalkSpec { recursive, queue: Seq::empty(), files: Seq::empty() }
}

/// The record of a file of which `size` was learnt: its size in bytes, or
/// zero where the file could not be read.
pub open spec fn record_of(path: Seq<char>, size: Option<u64>) -> FileRecord {
    FileRecord {
        path,
        size: match size {
            Some(bytes) => bytes,
            None => 0,
        },
    }
}

/// The walk after it learnt what its path is. An error ends it; a directory
/// is listed; anything else is measured as a file.
pub open spec fn after_stat<E>(pending: StatSpec, found: Result<EntryKind, E>) -> TraversalSpec<E> {
    match found {
        Err(error) => TraversalSpec::Done(Err(error)),
        Ok(EntryKind::Directory) => TraversalSpec::List(
            ListSpec { walk: fresh(pending.recursive), path: pending.path, root: true },
        ),
        Ok(_) => TraversalSpec::Measure(
            SizeSpec { walk: fresh(pending.recursive), path: pending.path },
        ),
    }
}

/// The walk after the listing of a directory. The entries are visited before
/// all that was still to be visited. A directory that cannot be listed ends
/// the walk with the error if the walk began at it, and is passed over
/// otherwise.
pub open spec fn after_listing<E>(
    pending: ListSpec,
    listing: Result<Seq<EntrySpec>, E>,
) -> TraversalSpec<E> {
    match listing {
        Ok(entries) => next_step(
            WalkSpec {
                recursive: pending.walk.recursive,
                queue: entries + pending.walk.queue,
                files: pending.walk.files,
            },
        ),
        Err(error) => if pending.root {
            TraversalSpec::Done(Err(error))
        } else {
            next_step(pending.walk)
        },
    }
}

/// The walk after a file was measured: the file is recorded, behind those
/// found before it.
pub open spec fn after_size<E>(pending: SizeSpec, size: Option<u64>) -> TraversalSpec<E> {
    next_step(
        WalkSpec {
            recursive: pending.walk.recursive,
            queue: pending.walk.queue,
            files: pending.walk.files.push(record_of(pending.path, size)),
        },
    )
}

/// What a walk does next: it visits the first entry that asks for a look at
/// the file system, and is done when none is left. A file is measured; a
/// directory is listed if the walk is recursive and passed over if not;
/// anything else is passed over.
pub open spec fn next_step<E>(walk: WalkSpec) -> TraversalSpec<E>
    decreases walk.queue.len(),
{
    if walk.queue.len() == 0 {
        TraversalSpec::Done(Ok(walk.files))
    } else {
        let entry = walk.queue.first();
        let rest = WalkSpec {
            recursive: walk.recursive,
            queue: walk.queue.drop_first(),
            files: walk.files,
        };
        match entry.kind {
            EntryKind::File => TraversalSpec::Measure(SizeSpec { walk: rest, path: entry.path }),
            EntryKind::Directory => if walk.recursive {
                TraversalSpec::List(ListSpec { walk: rest, path: entry.path, root: false })
            } else {
                next_step(rest)
            },
            EntryKind::Other => next_step(rest),
        }
    }
}

/// A listing as the contracts see it: its entries by their content, or the
/// error as it is.
pub open spec fn listing_view<E>(listing: Result<Vec<Entry>, E>) -> Result<Seq<EntrySpec>, E> {
    match listing {
        Ok(entries) => Ok(entries_view(entries@)),
        Err(error) => Err(error),
    }
}

impl Walk {
    fn fresh(recursive: bool) -> (r: Walk)
        ensures
            r@ == fresh(recursive),
    {
        let r = Walk { recursive, queue: VecDeque::new(), report: Report::new() };
        assert(r@.queue =~= Seq::<EntrySpec>::empty());
        r
    }

    fn next_step<E>(self) -> (r: Traversal<E>)
        ensures
            r@ == next_step::<E>(self@),
    {
        let recursive = self.recursive;
        let mut queue = self.queue;
        let report = self.report;
        loop
            invariant
                next_step::<E>(
                    WalkSpec { recursive, queue: entries_view(queue@), files: report@ },
                ) == next_step::<E>(self@),
            decreases queue@.len(),
        {
            let ghost before = entries_view(queue@);
            match queue.pop_front() {
                None => {
                    return Traversal::Done(Ok(report));
                },
                Some(entry) => {
                    assert(entries_view(queue@) =~= before.drop_first());
                    match entry.kind {
                        EntryKind::File => {
                            let walk = Walk { recursive, queue, report };
                            return Traversal::Measure(PendingSize { walk, path: entry.path });
                        },
                        EntryKind::Directory => {
                            if recursive {
                                let walk = Walk { recursive, queue, report };
                                return Traversal::List(
                                    PendingList { walk, path: entry.path, root: false },
                                );
                            }
                        },
                        EntryKind::Other => {},
                    }
                },
            }
        }
    }
}

impl<E> Traversal<E> {
    /// A walk of `path`, into the directories below it if `recursive`. Its
    /// first question is what `path` is.
    pub fn start(path: String, recursive: bool) -> (r: Traversal<E>)
        ensures
            r@ == begin::<E>(path@, recursive),
    {
        Traversal::Stat(PendingStat { path, recursive })
    }
}

impl PendingStat {
    /// The path to look at.
    pub fn path(&self) -> (r: &str)
        ensures
            r@ == self@.path,
    {
        self.path.as_str()
    }

    /// Goes on with what `path` was found to be, or with the error that kept
    /// it from being looked at.
    pub fn resume<E>(self, found: Result<EntryKind, E>) -> (r: Traversal<E>)
        ensures
            r@ == after_stat(self@, found),
    {
        match found {
            Err(error) => Traversal::Done(Err(error)),
            Ok(EntryKind::Directory) => Traversal::List(
                PendingList { walk: Walk::fresh(self.recursive), path: self.path, root: true },
            ),
            Ok(_) => Traversal::Measure(
                PendingSize { walk: Walk::fresh(self.recursive), path: self.path },
            ),
        }
    }
}

impl PendingList {
    /// The directory to list.
    pub fn path(&self) -> (r: &str)
        ensures
            r@ == self@.path,
    {
        self.path.as_str()
    }

    /// The files found so far, with their totals: what a caller that shows
    /// its progress has to show.
    pub fn report(&self) -> (r: &Report)
        ensures
            r@ == self@.walk.files,
    {
        &self.walk.report
    }

    /// Goes on with the entries of the directory, in the order in which the
    /// file system gave them, or with the error that kept it from being
    /// listed.
    pub fn resume<E>(self, listing: Result<Vec<Entry>, E>) -> (r: Traversal<E>)
        ensures
            r@ == after_listing(self@, listing_view(listing)),
    {
        let walk = self.walk;
        match listing {
            Err(error) => {
                if self.root {
                    Traversal::Done(Err(error))
                } else {
                    walk.next_step()
                }
            },
            Ok(entries) => {
                let recursive = walk.recursive;
                let mut queue = walk.queue;
                let report = walk.report;
                let mut entries = entries;
                let ghost listed = entries_view(entries@);
                let ghost waiting = entries_view(queue@);
                loop
                    invariant
                        entries@.len() <= listed.len(),
                        entries_view(entries@) == listed.take(entries@.len() as int),
                        entries_view(queue@) == listed.skip(entries@.len() as int) + waiting,
                    ensures
                        entries@.len() == 0,
                    decreases entries@.len(),
                {
                    let ghost held = entries_view(entries@);
                    let ghost queued = entries_view(queue@);
                    match entries.pop() {
                        None => {
                            break ;
                        },
                        Some(entry) => {
                            queue.push_front(entry);
                            assert(entry@ == held.last());
                            assert(entries_view(queue@) =~= seq![entry@] + queued);
                        },
                    }
                }
                Walk { recursive, queue, report }.next_step()
            },
        }
    }
}

impl PendingSize {
    /// The file to measure.
    pub fn path(&self) -> (r: &str)
        ensures
            r@ == self@.path,
    {
        self.path.as_str()
    }

    /// The files found so far, with their totals: what a caller that shows
    /// its progress has to show.
    pub fn report(&self) -> (r: &Report)
        ensures
            r@ == self@.walk.files,
    {
        &self.walk.report
    }

    /// Goes on with the size of the file in bytes, or with `None` where the
    /// file could not be read: it is then recorded with a size of zero.
    pub fn resume<E>(self, size: Option<u64>) -> (r: Traversal<E>)
        ensures
            r@ == after_size::<E>(self@, size),
    {
        let walk = self.walk;
        let bytes = match size {
            Some(bytes) => bytes,
            None => 0,
        };
        let file = FileData { path: self.path, size: bytes };
        let report = walk.report.record(file);
        Walk { recursive: walk.recursive, queue: walk.queue, report }.next_step()
    }
}

} // verus!
