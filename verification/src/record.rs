//! The records of a report and their totals.

use vstd::prelude::*;

verus! {

/// What lies at a path.
#[derive(Debug, Clone, Copy, PartialEq, Eq)]
pub enum EntryKind {
    /// A regular file.
    File,
    /// A directory.
    Directory,
    /// Anything else: a symbolic link, a device, a socket, or what could not
    /// be told.
    Other,
}

/// One entry of a directory listing: its path, and what the entry itself is.
/// A symbolic link is an entry of its own kind, whatever it leads to.
#[derive(Debug, Clone, PartialEq, Eq)]
pub struct Entry {
    pub path: String,
    pub kind: EntryKind,
}

/// The mathematical content of an [`Entry`].
pub struct EntrySpec {
    pub path: Seq<char>,
    pub kind: EntryKind,
}

impl View for Entry {
    type V = EntrySpec;

    open spec fn view(&self) -> EntrySpec {
        EntrySpec { path: self.path@, kind: self.kind }
    }
}

/// The entries of a listing, each by its content.
pub open spec fn entries_view(entries: Seq<Entry>) -> Seq<EntrySpec> {
    Seq::new(entries.len(), |i: int| entries[i]@)
}

/// The size found for one file, in bytes.
#[derive(Debug, Clone, PartialEq, Eq)]
pub struct FileData {
    pub path: String,
    pub size: u64,
}

/// The mathematical content of a [`FileData`].
pub struct FileRecord {
    pub path: Seq<char>,
    pub size: u64,
}

impl View for FileData {
    type V = FileRecord;

    open spec fn view(&self) -> FileRecord {
        FileRecord { path: self.path@, size: self.size }
    }
}

/// The records of a sequence of files, each by its content.
pub open spec fn files_view(files: Seq<FileData>) -> Seq<FileRecord> {
    Seq::new(files.len(), |i: int| files[i]@)
}

/// The number of files seen and the bytes they hold together.
#[derive(Debug, Clone, Copy, PartialEq, Eq)]
pub struct FinalInfo {
    pub num_files: u64,
    pub total_size: u128,
}

/// The mathematical content of a [`FinalInfo`].
pub struct Totals {
    pub num_files: nat,
    pub total_size: nat,
}

impl View for FinalInfo {
    type V = Totals;

    open spec fn view(&self) -> Totals {
        Totals { num_files: self.num_files as nat, total_size: self.total_size as nat }
    }
}

/// The sum of the sizes of `files`.
pub open spec fn total_bytes(files: Seq<FileRecord>) -> nat
    decreases files.len(),
{
    if files.len() == 0 {
        0
    } else {
        total_bytes(files.drop_last()) + files.last().size as nat
    }
}

/// The totals of `files`: how many they are and the sum of their sizes.
pub open spec fn totals_of(files: Seq<FileRecord>) -> Totals {
    Totals { num_files: files.len(), total_size: total_bytes(files) }
}

/// The sum of the sizes of two runs of records is the sum of their sums.
pub proof fn lemma_total_bytes_concat(a: Seq<FileRecord>, b: Seq<FileRecord>)
    ensures
        total_bytes(a + b) == total_bytes(a) + total_bytes(b),
    decreases b.len(),
{
    if b.len() > 0 {
        assert((a + b).drop_last() =~= a + b.drop_last());
        lemma_total_bytes_concat(a, b.drop_last());
    }
}

/// No sum of sizes exceeds the largest size times the number of records.
pub proof fn lemma_total_bytes_bound(files: Seq<FileRecord>)
    ensures
        total_bytes(files) <= files.len() * u64::MAX,
    decreases files.len(),
{
    if files.len() > 0 {
        lemma_total_bytes_bound(files.drop_last());
        assert((files.len() - 1) * u64::MAX + u64::MAX == files.len() * u64::MAX)
            by (nonlinear_arith);
    }
}

/// The files found so far, with their running totals.
///
/// The totals are kept as the files come in, one update for each, and always
/// agree with the files held.
#[derive(Debug, PartialEq, Eq)]
pub struct Report {
    files: Vec<FileData>,
    totals: FinalInfo,
}

impl View for Report {
    type V = Seq<FileRecord>;

    closed spec fn view(&self) -> Seq<FileRecord> {
        files_view(self.files@)
    }
}

impl Report {
    #[verifier::type_invariant]
    spec fn totals_agree(self) -> bool {
        self.totals@ == totals_of(files_view(self.files@))
    }

    /// A report of no file.
    pub fn new() -> (r: Report)
        ensures
            r@ == Seq::<FileRecord>::empty(),
    {
        Report { files: Vec::new(), totals: FinalInfo { num_files: 0, total_size: 0 } }
    }

    /// The report with one more file at its end, counted in the totals.
    pub fn record(self, file: FileData) -> (r: Report)
        ensures
            r@ == self@.push(file@),
    {
        proof {
            use_type_invariant(&self);
        }
        let ghost before = files_view(self.files@);
        let mut files = self.files;
        let totals = self.totals;
        let size = file.size;
        files.push(file);
        proof {
            assert(before.len() + 1 == files.len() <= usize::MAX);
            assert(files_view(files@).drop_last() =~= before);
            lemma_total_bytes_bound(before);
            assert(before.len() * u64::MAX + u64::MAX <= u64::MAX * u64::MAX) by (nonlinear_arith)
                requires
                    before.len() + 1 <= u64::MAX,
            ;
        }
        Report {
            files,
            totals: FinalInfo {
                num_files: totals.num_files + 1,
                total_size: totals.total_size + size as u128,
            },
        }
    }

    /// The files, in the order in which they were found.
    pub fn files(&self) -> (r: &Vec<FileData>)
        ensures
            files_view(r@) == self@,
    {
        &self.files
    }

    /// The files, given up by the report.
    pub fn into_files(self) -> (r: Vec<FileData>)
        ensures
            files_view(r@) == self@,
    {
        self.files
    }

    /// The totals of the files held.
    pub fn totals(&self) -> (r: FinalInfo)
        ensures
            r@ == totals_of(self@),
    {
        proof {
            use_type_invariant(self);
        }
        self.totals
    }
}

} // verus!
