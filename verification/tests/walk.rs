use filesize::record::{Entry, EntryKind, FileData, FinalInfo, Report};
use filesize::walk::Traversal;
use std::io::{Error, ErrorKind};

/// What a file system in memory holds at one path.
#[derive(Clone)]
enum Item {
    File(Option<u64>),
    Directory(Vec<String>),
    Sealed(ErrorKind),
    Link,
}

/// A file system in memory: paths with what lies at each.
#[derive(Clone)]
struct Disk {
    items: Vec<(String, Item)>,
}

/// What a walk asked of the file system.
#[derive(Debug, PartialEq, Clone)]
enum Asked {
    Stat(String),
    List(String),
    Measure(String),
}

impl Disk {
    fn new() -> Disk {
        Disk { items: Vec::new() }
    }

    fn with(mut self, path: &str, item: Item) -> Disk {
        self.items.push((path.to_string(), item));
        self
    }

    fn file(self, path: &str, size: u64) -> Disk {
        self.with(path, Item::File(Some(size)))
    }

    fn dir(self, path: &str, entries: &[&str]) -> Disk {
        self.with(path, Item::Directory(entries.iter().map(|e| e.to_string()).collect()))
    }

    fn at(&self, path: &str) -> Option<&Item> {
        self.items.iter().find(|(p, _)| p == path).map(|(_, item)| item)
    }

    fn stat(&self, path: &str) -> Result<EntryKind, Error> {
        match self.at(path) {
            None => Err(Error::from(ErrorKind::NotFound)),
            Some(item) => Ok(kind_of(item)),
        }
    }

    fn list(&self, path: &str) -> Result<Vec<Entry>, Error> {
        match self.at(path) {
            None => Err(Error::from(ErrorKind::NotFound)),
            Some(Item::Directory(names)) => Ok(names
                .iter()
                .map(|name| Entry {
                    path: name.clone(),
                    kind: kind_of(self.at(name).expect("a listed entry exists")),
                })
                .collect()),
            Some(Item::Sealed(error)) => Err(Error::from(*error)),
            Some(_) => Err(Error::from(ErrorKind::Other)),
        }
    }

    fn measure(&self, path: &str) -> Option<u64> {
        match self.at(path) {
            Some(Item::File(size)) => *size,
            _ => None,
        }
    }

    /// Walks `path`, answering from this disk, and tells what was asked.
    fn walk(&self, path: &str, recursive: bool) -> (Result<Report, ErrorKind>, Vec<Asked>) {
        let mut asked = Vec::new();
        let outcome = self.process(path, recursive, &mut asked);
        (outcome.map_err(|e| e.kind()), asked)
    }

    fn process(
        &self,
        path: &str,
        recursive: bool,
        asked: &mut Vec<Asked>,
    ) -> Result<Report, Error> {
        let mut walk: Traversal<Error> = Traversal::start(path.to_string(), recursive);
        loop {
            walk = match walk {
                Traversal::Stat(pending) => {
                    asked.push(Asked::Stat(pending.path().to_string()));
                    let found = self.stat(pending.path());
                    pending.resume(found)
                }
                Traversal::List(pending) => {
                    asked.push(Asked::List(pending.path().to_string()));
                    let listing = self.list(pending.path());
                    pending.resume(listing)
                }
                Traversal::Measure(pending) => {
                    asked.push(Asked::Measure(pending.path().to_string()));
                    let size = self.measure(pending.path());
                    pending.resume(size)
                }
                Traversal::Done(outcome) => return outcome,
            };
        }
    }

    fn files(&self, path: &str, recursive: bool) -> Vec<FileData> {
        self.walk(path, recursive).0.expect("the walk ends with a report").into_files()
    }
}

fn kind_of(item: &Item) -> EntryKind {
    match item {
        Item::File(_) => EntryKind::File,
        Item::Directory(_) => EntryKind::Directory,
        Item::Sealed(_) => EntryKind::Directory,
        Item::Link => EntryKind::Other,
    }
}

/// Walks `path` on `disk`.
fn process_path(disk: &Disk, path: &str, recursive: bool) -> Result<Report, Error> {
    disk.process(path, recursive, &mut Vec::new())
}

fn file(path: &str, size: u64) -> FileData {
    FileData { path: path.to_string(), size }
}

fn sorted(mut files: Vec<FileData>) -> Vec<FileData> {
    files.sort_by(|a, b| a.path.cmp(&b.path).then(a.size.cmp(&b.size)));
    files
}

/// A directory `d` with three files, two subdirectories and a link; `d/s`
/// holds two files and a directory with one more, `d/t` is empty.
fn sample() -> Disk {
    Disk::new()
        .dir("d", &["d/a", "d/s", "d/b", "d/l", "d/t", "d/c"])
        .file("d/a", 10)
        .dir("d/s", &["d/s/x", "d/s/u", "d/s/y"])
        .file("d/b", 200)
        .with("d/l", Item::Link)
        .dir("d/t", &[])
        .file("d/c", 3000)
        .file("d/s/x", 40000)
        .dir("d/s/u", &["d/s/u/z"])
        .file("d/s/y", 500000)
        .file("d/s/u/z", 6000000)
}

#[test]
fn inexistent_path() {
    let result =
        process_path(&Disk::new(), "/invented/madeup/alcachofa", true).map_err(|e| e.kind());

    assert_eq!(result, Err(std::io::ErrorKind::NotFound));
}

#[test]
fn inexistent_path_asks_once() {
    for recursive in [false, true] {
        let (outcome, asked) = sample().walk("nowhere", recursive);
        assert_eq!(outcome, Err(ErrorKind::NotFound));
        assert_eq!(asked, vec![Asked::Stat("nowhere".to_string())]);
    }
}

#[test]
fn error_of_the_first_look_is_handed_back() {
    let walk: Traversal<String> = Traversal::start("p".to_string(), true);
    let pending = match walk {
        Traversal::Stat(pending) => pending,
        _ => panic!("a walk starts with a look at its path"),
    };
    assert_eq!(pending.path(), "p");
    match pending.resume(Err("permission denied: p".to_string())) {
        Traversal::Done(outcome) => assert_eq!(outcome, Err("permission denied: p".to_string())),
        _ => panic!("an error ends the walk"),
    }
}

#[test]
fn single_file() {
    for recursive in [false, true] {
        let disk = Disk::new().file("notes.txt", 1234);
        let (outcome, asked) = disk.walk("notes.txt", recursive);
        let report = outcome.unwrap();
        assert_eq!(report.files(), &vec![file("notes.txt", 1234)]);
        assert_eq!(report.totals(), FinalInfo { num_files: 1, total_size: 1234 });
        assert_eq!(
            asked,
            vec![Asked::Stat("notes.txt".to_string()), Asked::Measure("notes.txt".to_string())]
        );
    }
}

#[test]
fn single_empty_file() {
    let disk = Disk::new().file("empty", 0);
    let report = disk.walk("empty", false).0.unwrap();
    assert_eq!(report.files(), &vec![file("empty", 0)]);
    assert_eq!(report.totals(), FinalInfo { num_files: 1, total_size: 0 });
}

#[test]
fn single_unreadable_file_has_size_zero() {
    let disk = Disk::new().with("secret", Item::File(None));
    let report = disk.walk("secret", true).0.unwrap();
    assert_eq!(report.files(), &vec![file("secret", 0)]);
    assert_eq!(report.totals(), FinalInfo { num_files: 1, total_size: 0 });
}

#[test]
fn path_that_is_neither_file_nor_directory_is_measured() {
    let disk = Disk::new().with("pipe", Item::Link);
    let (outcome, asked) = disk.walk("pipe", false);
    assert_eq!(outcome.unwrap().into_files(), vec![file("pipe", 0)]);
    assert_eq!(asked, vec![Asked::Stat("pipe".to_string()), Asked::Measure("pipe".to_string())]);
}

#[test]
fn flat_walk_records_the_files_of_the_directory() {
    let (outcome, asked) = sample().walk("d", false);
    let report = outcome.unwrap();
    assert_eq!(report.files(), &vec![file("d/a", 10), file("d/b", 200), file("d/c", 3000)]);
    assert_eq!(report.totals(), FinalInfo { num_files: 3, total_size: 3210 });
    assert_eq!(
        asked,
        vec![
            Asked::Stat("d".to_string()),
            Asked::List("d".to_string()),
            Asked::Measure("d/a".to_string()),
            Asked::Measure("d/b".to_string()),
            Asked::Measure("d/c".to_string()),
        ]
    );
}

#[test]
fn flat_walk_of_subdirectories_alone_is_empty() {
    let disk = Disk::new().dir("d", &["d/s", "d/t"]).dir("d/s", &["d/s/x"]).dir("d/t", &[]).file(
        "d/s/x",
        9,
    );
    let report = disk.walk("d", false).0.unwrap();
    assert!(report.files().is_empty());
    assert_eq!(report.totals(), FinalInfo { num_files: 0, total_size: 0 });
}

#[test]
fn recursive_walk_records_the_whole_tree() {
    let (outcome, asked) = sample().walk("d", true);
    let report = outcome.unwrap();
    assert_eq!(
        report.files(),
        &vec![
            file("d/a", 10),
            file("d/s/x", 40000),
            file("d/s/u/z", 6000000),
            file("d/s/y", 500000),
            file("d/b", 200),
            file("d/c", 3000),
        ]
    );
    assert_eq!(report.totals(), FinalInfo { num_files: 6, total_size: 6543210 });
    let sum: u128 = report.files().iter().map(|f| f.size as u128).sum();
    assert_eq!(report.totals().total_size, sum);
    assert_eq!(report.totals().num_files, report.files().len() as u64);
    assert_eq!(
        asked,
        vec![
            Asked::Stat("d".to_string()),
            Asked::List("d".to_string()),
            Asked::Measure("d/a".to_string()),
            Asked::List("d/s".to_string()),
            Asked::Measure("d/s/x".to_string()),
            Asked::List("d/s/u".to_string()),
            Asked::Measure("d/s/u/z".to_string()),
            Asked::Measure("d/s/y".to_string()),
            Asked::Measure("d/b".to_string()),
            Asked::List("d/t".to_string()),
            Asked::Measure("d/c".to_string()),
        ]
    );
}

#[test]
fn empty_directory() {
    for recursive in [false, true] {
        let disk = Disk::new().dir("d", &[]);
        let (outcome, asked) = disk.walk("d", recursive);
        let report = outcome.unwrap();
        assert!(report.files().is_empty());
        assert_eq!(report.totals(), FinalInfo { num_files: 0, total_size: 0 });
        assert_eq!(asked, vec![Asked::Stat("d".to_string()), Asked::List("d".to_string())]);
    }
}

#[test]
fn links_and_devices_are_passed_over() {
    let disk = Disk::new()
        .dir("d", &["d/l", "d/a", "d/m"])
        .with("d/l", Item::Link)
        .file("d/a", 7)
        .with("d/m", Item::Link);
    for recursive in [false, true] {
        let (outcome, asked) = disk.walk("d", recursive);
        assert_eq!(outcome.unwrap().into_files(), vec![file("d/a", 7)]);
        assert_eq!(
            asked,
            vec![
                Asked::Stat("d".to_string()),
                Asked::List("d".to_string()),
                Asked::Measure("d/a".to_string()),
            ]
        );
    }
}

#[test]
fn unreadable_file_in_a_directory_has_size_zero() {
    let disk = Disk::new()
        .dir("d", &["d/a", "d/locked", "d/b"])
        .file("d/a", 5)
        .with("d/locked", Item::File(None))
        .file("d/b", 6);
    let report = disk.walk("d", false).0.unwrap();
    assert_eq!(report.files(), &vec![file("d/a", 5), file("d/locked", 0), file("d/b", 6)]);
    assert_eq!(report.totals(), FinalInfo { num_files: 3, total_size: 11 });
}

#[test]
fn directory_below_that_cannot_be_listed_is_left_out() {
    let disk = Disk::new()
        .dir("d", &["d/a", "d/private", "d/s", "d/b"])
        .file("d/a", 1)
        .with("d/private", Item::Sealed(ErrorKind::PermissionDenied))
        .dir("d/s", &["d/s/x"])
        .file("d/s/x", 20)
        .file("d/b", 300);
    let (outcome, asked) = disk.walk("d", true);
    let report = outcome.unwrap();
    assert_eq!(report.files(), &vec![file("d/a", 1), file("d/s/x", 20), file("d/b", 300)]);
    assert_eq!(report.totals(), FinalInfo { num_files: 3, total_size: 321 });
    assert!(asked.contains(&Asked::List("d/private".to_string())));

    let (flat, asked) = disk.walk("d", false);
    assert_eq!(flat.unwrap().into_files(), vec![file("d/a", 1), file("d/b", 300)]);
    assert!(!asked.contains(&Asked::List("d/private".to_string())));
}

#[test]
fn directory_that_vanished_is_left_out() {
    let disk = Disk::new()
        .dir("d", &["d/gone", "d/a"])
        .with("d/gone", Item::Sealed(ErrorKind::NotFound))
        .file("d/a", 8);
    assert_eq!(disk.files("d", true), vec![file("d/a", 8)]);
}

#[test]
fn first_directory_that_cannot_be_listed_is_an_error() {
    for recursive in [false, true] {
        let disk = Disk::new().with("d", Item::Sealed(ErrorKind::PermissionDenied));
        let (outcome, asked) = disk.walk("d", recursive);
        assert_eq!(outcome, Err(ErrorKind::PermissionDenied));
        assert_eq!(asked, vec![Asked::Stat("d".to_string()), Asked::List("d".to_string())]);
    }
}

#[test]
fn walking_twice_gives_the_same_report() {
    for recursive in [false, true] {
        let disk = sample();
        let first = disk.walk("d", recursive);
        let second = disk.walk("d", recursive);
        assert_eq!(first, second);
    }
}

#[test]
fn order_of_the_listings_does_not_change_what_is_found() {
    let listed_otherwise = Disk::new()
        .dir("d", &["d/c", "d/t", "d/l", "d/b", "d/s", "d/a"])
        .file("d/a", 10)
        .dir("d/s", &["d/s/y", "d/s/x", "d/s/u"])
        .file("d/b", 200)
        .with("d/l", Item::Link)
        .dir("d/t", &[])
        .file("d/c", 3000)
        .file("d/s/x", 40000)
        .dir("d/s/u", &["d/s/u/z"])
        .file("d/s/y", 500000)
        .file("d/s/u/z", 6000000);
    for recursive in [false, true] {
        let first = sample().walk("d", recursive).0.unwrap();
        let second = listed_otherwise.walk("d", recursive).0.unwrap();
        assert_eq!(first.totals(), second.totals());
        assert_eq!(sorted(first.into_files()), sorted(second.into_files()));
    }
    assert_eq!(
        listed_otherwise.files("d", true),
        vec![
            file("d/c", 3000),
            file("d/b", 200),
            file("d/s/y", 500000),
            file("d/s/x", 40000),
            file("d/s/u/z", 6000000),
            file("d/a", 10),
        ]
    );
}

#[test]
fn totals_are_seen_while_the_walk_goes_on() {
    let disk = sample();
    let mut seen = Vec::new();
    let mut walk: Traversal<Error> = Traversal::start("d".to_string(), true);
    let report = loop {
        walk = match walk {
            Traversal::Stat(pending) => {
                let found = disk.stat(pending.path());
                pending.resume(found)
            }
            Traversal::List(pending) => {
                assert_eq!(
                    pending.report().totals().num_files,
                    pending.report().files().len() as u64
                );
                let listing = disk.list(pending.path());
                pending.resume(listing)
            }
            Traversal::Measure(pending) => {
                seen.push(pending.report().totals());
                let size = disk.measure(pending.path());
                pending.resume(size)
            }
            Traversal::Done(outcome) => break outcome.unwrap(),
        };
    };
    assert_eq!(
        seen,
        vec![
            FinalInfo { num_files: 0, total_size: 0 },
            FinalInfo { num_files: 1, total_size: 10 },
            FinalInfo { num_files: 2, total_size: 40010 },
            FinalInfo { num_files: 3, total_size: 6040010 },
            FinalInfo { num_files: 4, total_size: 6540010 },
            FinalInfo { num_files: 5, total_size: 6540210 },
        ]
    );
    assert_eq!(report.totals(), FinalInfo { num_files: 6, total_size: 6543210 });
}

#[test]
fn sizes_beyond_sixty_four_bits_add_up() {
    let disk = Disk::new().dir("d", &["d/a", "d/b"]).file("d/a", u64::MAX).file("d/b", u64::MAX);
    let report = disk.walk("d", false).0.unwrap();
    assert_eq!(
        report.totals(),
        FinalInfo { num_files: 2, total_size: 36_893_488_147_419_103_230u128 }
    );
}

#[test]
fn listing_is_visited_before_what_waited() {
    let walk: Traversal<ErrorKind> = Traversal::start("r".to_string(), true);
    let walk: Traversal<ErrorKind> = match walk {
        Traversal::Stat(pending) => pending.resume(Ok(EntryKind::Directory)),
        _ => panic!("a walk starts with a look at its path"),
    };
    let walk: Traversal<ErrorKind> = match walk {
        Traversal::List(pending) => pending.resume(Ok(vec![
            Entry { path: "r/s".to_string(), kind: EntryKind::Directory },
            Entry { path: "r/f".to_string(), kind: EntryKind::File },
        ])),
        _ => panic!("a directory is listed"),
    };
    let walk: Traversal<ErrorKind> = match walk {
        Traversal::List(pending) => {
            assert_eq!(pending.path(), "r/s");
            pending.resume(Ok(vec![
                Entry { path: "r/s/1".to_string(), kind: EntryKind::File },
                Entry { path: "r/s/2".to_string(), kind: EntryKind::File },
            ]))
        }
        _ => panic!("the first entry is a directory"),
    };
    let mut paths = Vec::new();
    let mut walk = walk;
    let report = loop {
        walk = match walk {
            Traversal::Measure(pending) => {
                paths.push(pending.path().to_string());
                let size = paths.len() as u64;
                pending.resume(Some(size))
            }
            Traversal::Done(outcome) => break outcome.unwrap(),
            _ => panic!("only files are left"),
        };
    };
    assert_eq!(paths, vec!["r/s/1", "r/s/2", "r/f"]);
    assert_eq!(report.into_files(), vec![file("r/s/1", 1), file("r/s/2", 2), file("r/f", 3)]);
}
