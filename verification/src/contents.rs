//! What the outcome of a walk holds: which files, how many, how many bytes,
//! and that the order in which directories list their entries changes none
//! of that.

use crate::record::{
    lemma_total_bytes_concat, total_bytes, totals_of, EntryKind, FileRecord, Totals,
};
use crate::tree::{
    answers_from, files_in, files_of, lemma_replay_one, lemma_walk_of_tree, outcome_of, replay,
    Answer, Tree,
};
use crate::walk::{begin, record_of, TraversalSpec};
use vstd::prelude::*;
use vstd::seq_lib::lemma_multiset_commutative;

verus! {

/// `file` is the record of a file that a walk reaches in `tree`: of `tree`
/// itself, or of a file reached in an entry of it if the walk is recursive.
pub open spec fn holds<E>(tree: Tree<E>, file: FileRecord, recursive: bool) -> bool
    decreases tree,
{
    match tree {
        Tree::File { path, size } => file == record_of(path, size),
        Tree::Directory { entries, .. } => recursive && holds_in(entries, file, recursive),
        Tree::Sealed { .. } => false,
        Tree::Other { .. } => false,
    }
}

/// `file` is the record of a file that a walk reaches in one of `entries`.
pub open spec fn holds_in<E>(entries: Seq<Tree<E>>, file: FileRecord, recursive: bool) -> bool
    decreases entries,
{
    exists|i: int| 0 <= i < entries.len() && holds(#[trigger] entries[i], file, recursive)
}

/// The number of files that a walk reaches in `tree`.
pub open spec fn count_of<E>(tree: Tree<E>, recursive: bool) -> nat
    decreases tree,
{
    match tree {
        Tree::File { .. } => 1,
        Tree::Directory { entries, .. } => if recursive {
            count_in(entries, recursive)
        } else {
            0
        },
        Tree::Sealed { .. } => 0,
        Tree::Other { .. } => 0,
    }
}

/// The number of files that a walk reaches in `entries`.
pub open spec fn count_in<E>(entries: Seq<Tree<E>>, recursive: bool) -> nat
    decreases entries,
{
    if entries.len() == 0 {
        0
    } else {
        count_of(entries.first(), recursive) + count_in(entries.drop_first(), recursive)
    }
}

/// The bytes in the files that a walk reaches in `tree`, a file that cannot
/// be read counting for none.
pub open spec fn bytes_of<E>(tree: Tree<E>, recursive: bool) -> nat
    decreases tree,
{
    match tree {
        Tree::File { path, size } => record_of(path, size).size as nat,
        Tree::Directory { entries, .. } => if recursive {
            bytes_in(entries, recursive)
        } else {
            0
        },
        Tree::Sealed { .. } => 0,
        Tree::Other { .. } => 0,
    }
}

/// The bytes in the files that a walk reaches in `entries`.
pub open spec fn bytes_in<E>(entries: Seq<Tree<E>>, recursive: bool) -> nat
    decreases entries,
{
    if entries.len() == 0 {
        0
    } else {
        bytes_of(entries.first(), recursive) + bytes_in(entries.drop_first(), recursive)
    }
}

/// The records owed for two runs of entries, one after the other, are those
/// of the first followed by those of the second.
pub proof fn lemma_files_in_concat<E>(a: Seq<Tree<E>>, b: Seq<Tree<E>>, recursive: bool)
    ensures
        files_in(a + b, recursive) == files_in(a, recursive) + files_in(b, recursive),
    decreases a.len(),
{
    if a.len() > 0 {
        assert((a + b).drop_first() =~= a.drop_first() + b);
        lemma_files_in_concat(a.drop_first(), b, recursive);
    }
}

/// The records owed for a single entry.
pub proof fn lemma_files_in_one<E>(tree: Tree<E>, recursive: bool)
    ensures
        files_in(seq![tree], recursive) == files_of(tree, recursive),
{
    let one = seq![tree];
    assert(files_in(one.drop_first(), recursive) =~= Seq::<FileRecord>::empty());
}

/// The totals of a walk are those of the tree: a walk over `entries` records
/// as many files as it reaches in them, and their sizes add up to the bytes
/// in those files.
pub proof fn lemma_totals_of_entries<E>(entries: Seq<Tree<E>>, recursive: bool)
    ensures
        totals_of(files_in(entries, recursive)) == (Totals {
            num_files: count_in(entries, recursive),
            total_size: bytes_in(entries, recursive),
        }),
    decreases entries,
{
    if entries.len() > 0 {
        let first = entries.first();
        let rest = entries.drop_first();
        let here = files_of(first, recursive);
        lemma_totals_of_entries(rest, recursive);
        lemma_total_bytes_concat(here, files_in(rest, recursive));
        assert(totals_of(here) == (Totals {
            num_files: count_of(first, recursive),
            total_size: bytes_of(first, recursive),
        })) by {
            match first {
                Tree::File { .. } => {
                    assert(total_bytes(here.drop_last()) == 0);
                },
                Tree::Directory { entries: below, .. } => {
                    if recursive {
                        lemma_totals_of_entries(below, recursive);
                    }
                },
                _ => {},
            }
        }
    }
}

/// The records of a walk are those of the files it reaches: `file` is among
/// the records owed for `entries` exactly if it is the record of a file
/// reached in one of them.
pub proof fn lemma_files_held<E>(entries: Seq<Tree<E>>, file: FileRecord, recursive: bool)
    ensures
        files_in(entries, recursive).contains(file) <==> holds_in(entries, file, recursive),
    decreases entries,
{
    if entries.len() > 0 {
        let first = entries.first();
        let rest = entries.drop_first();
        let here = files_of(first, recursive);
        let there = files_in(rest, recursive);
        lemma_files_held(rest, file, recursive);
        assert(here.contains(file) <==> holds(first, file, recursive)) by {
            match first {
                Tree::File { path, size } => {
                    assert(here[0] == record_of(path, size));
                },
                Tree::Directory { entries: below, .. } => {
                    if recursive {
                        lemma_files_held(below, file, recursive);
                    }
                },
                Tree::Sealed { .. } => {},
                Tree::Other { .. } => {},
            }
        }
        if files_in(entries, recursive).contains(file) {
            // The record is owed for the first entry or for one of the others.
            let i = choose|i: int| 0 <= i < (here + there).len() && (here + there)[i] == file;
            if i < here.len() {
                assert(holds(entries[0], file, recursive));
            } else {
                assert(there[i - here.len()] == file);
                let j = choose|j: int|
                    0 <= j < rest.len() && holds(#[trigger] rest[j], file, recursive);
                assert(holds(entries[j + 1], file, recursive));
            }
        }
        if holds_in(entries, file, recursive) {
            // The file is reached in the first entry or in one of the others.
            let j = choose|j: int|
                0 <= j < entries.len() && holds(#[trigger] entries[j], file, recursive);
            if j == 0 {
                let i = choose|i: int| 0 <= i < here.len() && here[i] == file;
                assert((here + there)[i] == file);
            } else {
                assert(rest[j - 1] == entries[j]);
                let i = choose|i: int| 0 <= i < there.len() && there[i] == file;
                assert((here + there)[here.len() + i] == file);
            }
        }
    }
}

/// `b` is `a` with the entries of each directory listed in some order: the
/// same tree as another run of the file system may enumerate it.
pub open spec fn reordered<E>(a: Tree<E>, b: Tree<E>) -> bool
    decreases a,
{
    match a {
        Tree::Directory { path, entries } => {
            &&& b is Directory
            &&& b->Directory_path == path
            &&& reordered_entries(entries, b->entries)
        },
        _ => a == b,
    }
}

/// `b` holds the entries of `a`, each reordered within, in some order.
pub open spec fn reordered_entries<E>(a: Seq<Tree<E>>, b: Seq<Tree<E>>) -> bool
    decreases a,
{
    if a.len() == 0 {
        b.len() == 0
    } else {
        exists|j: int|
            0 <= j < b.len() && reordered(a.first(), #[trigger] b[j]) && reordered_entries(
                a.drop_first(),
                b.remove(j),
            )
    }
}

/// Two runs of records hold the same records, each as often as the other,
/// and so have the same totals.
pub open spec fn same_files(a: Seq<FileRecord>, b: Seq<FileRecord>) -> bool {
    a.to_multiset() == b.to_multiset() && totals_of(a) == totals_of(b)
}

/// [`same_files`] holds of concatenations part by part.
pub proof fn lemma_same_files_concat(
    a: Seq<FileRecord>,
    b: Seq<FileRecord>,
    c: Seq<FileRecord>,
    d: Seq<FileRecord>,
)
    requires
        same_files(a, c),
        same_files(b, d),
    ensures
        same_files(a + b, c + d),
{
    lemma_multiset_commutative(a, b);
    lemma_multiset_commutative(c, d);
    lemma_total_bytes_concat(a, b);
    lemma_total_bytes_concat(c, d);
}

/// A tree is a reordering of itself.
pub proof fn lemma_reordered_reflexive<E>(tree: Tree<E>)
    ensures
        reordered(tree, tree),
    decreases tree,
{
    match tree {
        Tree::Directory { entries, .. } => lemma_reordered_entries_reflexive(entries),
        _ => {},
    }
}

/// A listing is a reordering of itself.
pub proof fn lemma_reordered_entries_reflexive<E>(entries: Seq<Tree<E>>)
    ensures
        reordered_entries(entries, entries),
    decreases entries,
{
    if entries.len() > 0 {
        lemma_reordered_reflexive(entries.first());
        lemma_reordered_entries_reflexive(entries.drop_first());
        assert(entries.remove(0) =~= entries.drop_first());
    }
}

/// The order in which a directory lists its entries does not matter: a walk
/// over a reordering of a tree records the same files, each as often, and
/// the same totals.
pub proof fn lemma_order_is_immaterial<E>(a: Tree<E>, b: Tree<E>, recursive: bool)
    requires
        reordered(a, b),
    ensures
        same_files(files_of(a, recursive), files_of(b, recursive)),
    decreases a,
{
    match a {
        Tree::Directory { entries, .. } => {
            if recursive {
                lemma_order_of_entries_is_immaterial(entries, b->entries, recursive);
            }
        },
        _ => {},
    }
}

/// [`lemma_order_is_immaterial`] for the entries of a directory.
pub proof fn lemma_order_of_entries_is_immaterial<E>(
    a: Seq<Tree<E>>,
    b: Seq<Tree<E>>,
    recursive: bool,
)
    requires
        reordered_entries(a, b),
    ensures
        same_files(files_in(a, recursive), files_in(b, recursive)),
    decreases a,
{
    if a.len() > 0 {
        // The first entry of `a` stands at some place `j` in `b`.
        let j = choose|j: int|
            0 <= j < b.len() && reordered(a.first(), #[trigger] b[j]) && reordered_entries(
                a.drop_first(),
                b.remove(j),
            );
        let before = b.take(j);
        let after = b.skip(j + 1);
        let x = files_in(before, recursive);
        let y = files_of(b[j], recursive);
        let z = files_in(after, recursive);
        assert(b =~= before + seq![b[j]] + after);
        assert(b.remove(j) =~= before + after);
        assert(files_in(b, recursive) == x + y + z && files_in(b.remove(j), recursive) == x + z)
            by {
            lemma_files_in_concat(before + seq![b[j]], after, recursive);
            lemma_files_in_concat(before, seq![b[j]], recursive);
            lemma_files_in_concat(before, after, recursive);
            lemma_files_in_one(b[j], recursive);
        }
        // What is owed for `b` is what is owed for that entry and for the others.
        assert(same_files(y + (x + z), x + y + z)) by {
            lemma_multiset_commutative(x + y, z);
            lemma_multiset_commutative(x, y);
            lemma_multiset_commutative(x, z);
            lemma_multiset_commutative(y, x + z);
            assert((x + y + z).to_multiset() =~= (y + (x + z)).to_multiset());
            lemma_total_bytes_concat(x + y, z);
            lemma_total_bytes_concat(x, y);
            lemma_total_bytes_concat(x, z);
            lemma_total_bytes_concat(y, x + z);
        }
        lemma_order_is_immaterial(a.first(), b[j], recursive);
        lemma_order_of_entries_is_immaterial(a.drop_first(), b.remove(j), recursive);
        lemma_same_files_concat(
            files_of(a.first(), recursive),
            files_in(a.drop_first(), recursive),
            y,
            x + z,
        );
    }
}

/// The number of `entries` that are files.
pub open spec fn number_of_files<E>(entries: Seq<Tree<E>>) -> nat
    decreases entries.len(),
{
    if entries.len() == 0 {
        0
    } else {
        (if entries.first() is File {
            1nat
        } else {
            0nat
        }) + number_of_files(entries.drop_first())
    }
}

/// `file` is the record of one of `entries` that is a file.
pub open spec fn file_among<E>(entries: Seq<Tree<E>>, file: FileRecord) -> bool {
    exists|i: int|
        0 <= i < entries.len() && (#[trigger] entries[i]) is File && file == record_of(
            entries[i]->File_path,
            entries[i]->File_size,
        )
}

/// A walk of a path that cannot be looked at ends with the error that says
/// so, and with no record.
pub proof fn lemma_missing_path<E>(path: Seq<char>, error: E, recursive: bool)
    ensures
        replay(begin::<E>(path, recursive), seq![Answer::Stat { path, found: Err(error) }])
            == Some(TraversalSpec::<E>::Done(Err(error))),
{
    let found: Result<EntryKind, E> = Err(error);
    lemma_replay_one(begin::<E>(path, recursive), Answer::Stat { path, found });
}

/// A walk of a file of `bytes` bytes ends with one record, which holds that
/// size, whether the walk is recursive or not.
pub proof fn lemma_single_file<E>(path: Seq<char>, bytes: u64, recursive: bool)
    ensures
        replay(
            begin::<E>(path, recursive),
            seq![
                Answer::Stat { path, found: Ok(EntryKind::File) },
                Answer::Measure { path, size: Some(bytes) },
            ],
        ) == Some(TraversalSpec::<E>::Done(Ok(seq![FileRecord { path, size: bytes }]))),
        totals_of(seq![FileRecord { path, size: bytes }]) == (Totals {
            num_files: 1,
            total_size: bytes as nat,
        }),
{
    lemma_walk_of_tree(Tree::<E>::File { path, size: Some(bytes) }, recursive);
    assert(total_bytes(seq![FileRecord { path, size: bytes }].drop_last()) == 0);
}

/// A file that cannot be read is no failure: it is recorded with a size of
/// zero, where the walk starts at it and where the walk meets it in a
/// directory.
pub proof fn lemma_unreadable_file<E>(path: Seq<char>, entries: Seq<Tree<E>>, recursive: bool)
    ensures
        replay(
            begin::<E>(path, recursive),
            seq![
                Answer::Stat { path, found: Ok(EntryKind::File) },
                Answer::Measure { path, size: None },
            ],
        ) == Some(TraversalSpec::<E>::Done(Ok(seq![FileRecord { path, size: 0 }]))),
        entries.contains(Tree::File { path, size: None }) ==> files_in(
            entries,
            recursive,
        ).contains(FileRecord { path, size: 0 }),
{
    let tree = Tree::<E>::File { path, size: None };
    lemma_walk_of_tree(tree, recursive);
    if entries.contains(tree) {
        let i = choose|i: int| 0 <= i < entries.len() && entries[i] == tree;
        assert(holds(entries[i], FileRecord { path, size: 0 }, recursive));
        lemma_files_held(entries, FileRecord { path, size: 0 }, recursive);
    }
}

/// A walk of a directory that stays out of its subdirectories ends with one
/// record for each entry that is a file, and with none for any other entry:
/// `file` is among the records exactly if it is the record of such an entry;
/// there are as many records as the directory has files, and that number is
/// the count of the totals.
pub proof fn lemma_flat_walk<E>(path: Seq<char>, entries: Seq<Tree<E>>, file: FileRecord)
    ensures
        replay(
            begin::<E>(path, false),
            answers_from(Tree::Directory { path, entries }, false),
        ) == Some(TraversalSpec::<E>::Done(Ok(files_in(entries, false)))),
        files_in(entries, false).contains(file) <==> file_among(entries, file),
        files_in(entries, false).len() == number_of_files(entries),
        totals_of(files_in(entries, false)).num_files == number_of_files(entries),
{
    lemma_walk_of_tree(Tree::Directory { path, entries }, false);
    lemma_totals_of_entries(entries, false);
    lemma_count_of_flat(entries);
    lemma_files_held(entries, file, false);
    if holds_in(entries, file, false) {
        let i = choose|i: int| 0 <= i < entries.len() && holds(#[trigger] entries[i], file, false);
        assert(entries[i] is File);
    }
    if file_among(entries, file) {
        let i = choose|i: int|
            0 <= i < entries.len() && (#[trigger] entries[i]) is File && file == record_of(
                entries[i]->File_path,
                entries[i]->File_size,
            );
        assert(holds(entries[i], file, false));
    }
}

/// A walk that stays out of subdirectories reaches the files among the
/// entries and no other.
proof fn lemma_count_of_flat<E>(entries: Seq<Tree<E>>)
    ensures
        count_in(entries, false) == number_of_files(entries),
    decreases entries.len(),
{
    if entries.len() > 0 {
        lemma_count_of_flat(entries.drop_first());
        let first = entries.first();
        assert(count_of(first, false) == if first is File {
            1nat
        } else {
            0nat
        });
    }
}

/// A recursive walk of a directory ends with the records of all the files
/// below it, through every directory that can be listed: `file` is among
/// them exactly if the walk reaches a file with that record. It has as many
/// records as there are such files, and the total of the sizes is the sum of
/// the sizes recorded, which is the number of bytes in those files.
pub proof fn lemma_recursive_walk<E>(path: Seq<char>, entries: Seq<Tree<E>>, file: FileRecord)
    ensures
        replay(
            begin::<E>(path, true),
            answers_from(Tree::Directory { path, entries }, true),
        ) == Some(TraversalSpec::<E>::Done(Ok(files_in(entries, true)))),
        files_in(entries, true).contains(file) <==> holds_in(entries, file, true),
        files_in(entries, true).len() == count_in(entries, true),
        totals_of(files_in(entries, true)).total_size == total_bytes(files_in(entries, true)),
        total_bytes(files_in(entries, true)) == bytes_in(entries, true),
{
    lemma_walk_of_tree(Tree::Directory { path, entries }, true);
    lemma_totals_of_entries(entries, true);
    lemma_files_held(entries, file, true);
}

/// Two walks of one tree end alike. If the file system lists the entries of
/// its directories in another order the second time, the walks still end
/// with the same files, each as often, and with the same totals, or with
/// the same error. A tree is a reordering of itself
/// ([`lemma_reordered_reflexive`]), so this holds of two walks that meet the
/// same listings too.
pub proof fn lemma_walk_again<E>(first: Tree<E>, second: Tree<E>, recursive: bool)
    requires
        reordered(first, second),
    ensures
        replay(begin::<E>(first.path(), recursive), answers_from(first, recursive)) == Some(
            TraversalSpec::Done(outcome_of(first, recursive)),
        ),
        replay(begin::<E>(second.path(), recursive), answers_from(second, recursive)) == Some(
            TraversalSpec::Done(outcome_of(second, recursive)),
        ),
        match outcome_of(first, recursive) {
            Ok(files) => outcome_of(second, recursive) is Ok && same_files(
                files,
                outcome_of(second, recursive)->Ok_0,
            ),
            Err(error) => outcome_of(second, recursive) == Err::<Seq<FileRecord>, E>(error),
        },
{
    lemma_walk_of_tree(first, recursive);
    lemma_walk_of_tree(second, recursive);
    match first {
        Tree::Directory { entries, .. } => {
            lemma_order_of_entries_is_immaterial(entries, second->entries, recursive);
        },
        _ => {},
    }
}

} // verus!
