use fast_copy::copier::{Copier, Phase, Request};
use fast_copy::error::CopyError;
use fast_copy::path::FilePath;
use fast_copy::scanner::{DirEntry, EntryKind, Scanner};

fn at(names: &[&str]) -> FilePath {
    FilePath::new(b"/".to_vec(), names.iter().map(|name| name.as_bytes().to_vec()).collect())
}

fn create(names: &[&str]) -> Option<Request> {
    Some(Request::CreateDirectories { path: at(names) })
}

fn copy(from: &[&str], to: &[&str]) -> Option<Request> {
    Some(Request::CopyFile { from: at(from), to: at(to) })
}

fn failed(cause: &str) -> Result<(), String> {
    Err(cause.to_string())
}

/// Replies to every request of the copier: with a failure to those whose
/// number, counted from nought, is in `failing`, with success to the others.
fn run(copier: &mut Copier, failing: &[usize]) -> (Vec<Request>, Vec<CopyError>) {
    let mut asked = Vec::new();
    let mut told = Vec::new();
    while let Some(request) = copier.request() {
        let outcome = if failing.contains(&asked.len()) { failed("failed") } else { Ok(()) };
        asked.push(request);
        told.extend(copier.reply(outcome));
        assert!(asked.len() <= 2 * copier.attempted() + 1);
    }
    (asked, told)
}

fn example() -> Copier {
    Copier::new(
        at(&["src"]),
        at(&["dst"]),
        vec![at(&["src", "a.txt"]), at(&["src", "sub", "c.csv"])],
    )
}

#[test]
fn a_copy_begins_by_asking_for_the_destination() {
    let copier = example();
    assert_eq!(copier.phase(), Phase::Root);
    assert_eq!(copier.request(), create(&["dst"]));
    assert_eq!(copier.copied(), 0);
    assert_eq!(copier.attempted(), 2);
    assert!(!copier.is_finished());
}

#[test]
fn the_example_tree_is_copied_two_of_two() {
    let mut copier = example();
    assert_eq!(copier.request(), create(&["dst"]));
    assert!(copier.reply(Ok(())).is_empty());
    assert_eq!(copier.phase(), Phase::Parent);
    assert_eq!(copier.request(), create(&["dst"]));
    assert!(copier.reply(Ok(())).is_empty());
    assert_eq!(copier.phase(), Phase::Transfer);
    assert_eq!(copier.request(), copy(&["src", "a.txt"], &["dst", "a.txt"]));
    assert!(copier.reply(Ok(())).is_empty());
    assert_eq!(copier.copied(), 1);
    assert_eq!(copier.request(), create(&["dst", "sub"]));
    assert!(copier.reply(Ok(())).is_empty());
    assert_eq!(copier.request(), copy(&["src", "sub", "c.csv"], &["dst", "sub", "c.csv"]));
    assert!(copier.reply(Ok(())).is_empty());
    assert!(copier.is_finished());
    assert_eq!(copier.phase(), Phase::Done);
    assert_eq!(copier.request(), None);
    assert_eq!(copier.copied(), 2);
    assert_eq!(copier.attempted(), 2);
}

#[test]
fn scan_and_copy_of_the_example_tree() {
    let mut scanner = Scanner::new(at(&["src"]));
    scanner.answer(Ok(vec![
        DirEntry::new(b"a.txt".to_vec(), EntryKind::File),
        DirEntry::new(b"b.jpg".to_vec(), EntryKind::File),
        DirEntry::new(b"sub".to_vec(), EntryKind::Directory),
    ]));
    scanner.answer(Ok(vec![DirEntry::new(b"c.csv".to_vec(), EntryKind::File)]));
    assert_eq!(scanner.pending(), None);
    let mut copier = Copier::new(at(&["src"]), at(&["dst"]), scanner.into_files());
    let (asked, told) = run(&mut copier, &[]);
    assert!(told.is_empty());
    assert_eq!(
        asked,
        vec![
            create(&["dst"]).unwrap(),
            create(&["dst"]).unwrap(),
            copy(&["src", "a.txt"], &["dst", "a.txt"]).unwrap(),
            create(&["dst", "sub"]).unwrap(),
            copy(&["src", "sub", "c.csv"], &["dst", "sub", "c.csv"]).unwrap(),
        ]
    );
    assert_eq!(format!("Copied {} of {} files.", copier.copied(), copier.attempted()), "Copied 2 of 2 files.");
}

#[test]
fn nothing_is_copied_where_the_destination_cannot_be_created() {
    let mut copier = example();
    let told = copier.reply(failed("read-only filesystem"));
    assert_eq!(
        told,
        vec![CopyError::DestinationRootUncreatable {
            path: at(&["dst"]),
            cause: "read-only filesystem".to_string(),
        }]
    );
    assert!(copier.is_finished());
    assert_eq!(copier.request(), None);
    assert_eq!(copier.copied(), 0);
    assert_eq!(copier.attempted(), 2);
}

#[test]
fn a_copy_of_no_files_only_creates_the_destination() {
    let mut copier = Copier::new(at(&["src"]), at(&["dst"]), vec![]);
    let (asked, told) = run(&mut copier, &[]);
    assert_eq!(asked, vec![create(&["dst"]).unwrap()]);
    assert!(told.is_empty());
    assert_eq!(copier.copied(), 0);
    assert_eq!(copier.attempted(), 0);
}

#[test]
fn a_file_that_cannot_be_copied_is_left_out_and_the_next_is_taken_up() {
    let mut copier = Copier::new(
        at(&["src"]),
        at(&["dst"]),
        vec![at(&["src", "a.txt"]), at(&["src", "b.txt"]), at(&["src", "c.txt"])],
    );
    // requests: root, parent a, copy a, parent b, copy b, parent c, copy c
    let (asked, told) = run(&mut copier, &[4]);
    assert_eq!(asked.len(), 7);
    assert_eq!(
        told,
        vec![CopyError::CopyFailed { path: at(&["src", "b.txt"]), cause: "failed".to_string() }]
    );
    assert_eq!(asked[6], copy(&["src", "c.txt"], &["dst", "c.txt"]).unwrap());
    assert_eq!(copier.copied(), 2);
    assert_eq!(copier.attempted(), 3);
}

#[test]
fn a_file_whose_directory_cannot_be_created_is_not_asked_for() {
    let mut copier = example();
    // requests: root, parent a, copy a, parent c (fails)
    let (asked, told) = run(&mut copier, &[3]);
    assert_eq!(
        asked,
        vec![
            create(&["dst"]).unwrap(),
            create(&["dst"]).unwrap(),
            copy(&["src", "a.txt"], &["dst", "a.txt"]).unwrap(),
            create(&["dst", "sub"]).unwrap(),
        ]
    );
    assert_eq!(
        told,
        vec![CopyError::DestinationParentUncreatable {
            path: at(&["dst", "sub", "c.csv"]),
            cause: "failed".to_string(),
        }]
    );
    assert_eq!(copier.copied(), 1);
    assert_eq!(copier.attempted(), 2);
}

#[test]
fn one_failure_among_five_files_leaves_four_copied_whichever_fails() {
    let files: Vec<FilePath> =
        ["a.txt", "b.txt", "c.txt", "d.txt", "e.txt"].iter().map(|name| at(&["src", name])).collect();
    for failing in 1..11 {
        let mut copier = Copier::new(at(&["src"]), at(&["dst"]), files.clone());
        let (_, told) = run(&mut copier, &[failing]);
        assert_eq!(told.len(), 1);
        assert_eq!(copier.copied(), 4);
        assert_eq!(copier.attempted(), 5);
    }
}

#[test]
fn a_file_that_would_be_copied_onto_itself_is_neither_copied_nor_asked_for() {
    let mut copier = Copier::new(
        at(&["src"]),
        at(&["src"]),
        vec![at(&["src", "a.txt"]), at(&["src", "sub", "c.csv"])],
    );
    assert_eq!(copier.request(), create(&["src"]));
    let told = copier.reply(Ok(()));
    assert_eq!(
        told,
        vec![
            CopyError::SourceEqualsDestination { path: at(&["src", "a.txt"]) },
            CopyError::SourceEqualsDestination { path: at(&["src", "sub", "c.csv"]) },
        ]
    );
    assert!(copier.is_finished());
    assert_eq!(copier.request(), None);
    assert_eq!(copier.copied(), 0);
    assert_eq!(copier.attempted(), 2);
}

#[test]
fn a_destination_inside_the_source_is_another_place() {
    let mut copier =
        Copier::new(at(&["src"]), at(&["src", "backup"]), vec![at(&["src", "a.txt"])]);
    let (asked, told) = run(&mut copier, &[]);
    assert!(told.is_empty());
    assert_eq!(asked[2], copy(&["src", "a.txt"], &["src", "backup", "a.txt"]).unwrap());
    assert_eq!(copier.copied(), 1);
}

#[test]
fn a_target_without_a_directory_above_it_is_copied_to_at_once() {
    let root = FilePath::new(b"/".to_vec(), vec![]);
    let mut copier = Copier::new(at(&["src"]), root.clone(), vec![at(&["src"])]);
    assert_eq!(copier.request(), Some(Request::CreateDirectories { path: root.clone() }));
    assert!(copier.reply(Ok(())).is_empty());
    assert_eq!(copier.phase(), Phase::Transfer);
    assert_eq!(copier.request(), Some(Request::CopyFile { from: at(&["src"]), to: root }));
    let told = copier.reply(failed("is a directory"));
    assert_eq!(
        told,
        vec![CopyError::CopyFailed { path: at(&["src"]), cause: "is a directory".to_string() }]
    );
    assert_eq!(copier.copied(), 0);
    assert!(copier.is_finished());
}

#[test]
fn a_reply_to_a_finished_copy_changes_nothing() {
    let mut copier = example();
    run(&mut copier, &[]);
    assert!(copier.is_finished());
    assert!(copier.reply(Ok(())).is_empty());
    assert!(copier.reply(failed("late")).is_empty());
    assert!(copier.is_finished());
    assert_eq!(copier.copied(), 2);
}

#[test]
fn a_second_run_with_the_same_outcomes_copies_as_many_files() {
    let mut first = example();
    let mut second = example();
    let (asked_first, told_first) = run(&mut first, &[2]);
    let (asked_second, told_second) = run(&mut second, &[2]);
    assert_eq!(asked_first, asked_second);
    assert_eq!(told_first, told_second);
    assert_eq!(first.copied(), 1);
    assert_eq!(second.copied(), 1);
}

#[test]
fn every_failure_at_once_copies_nothing_but_asks_for_every_file() {
    let mut copier = example();
    // requests: root, parent a (ok), copy a (fails), parent c (fails)
    let (asked, told) = run(&mut copier, &[2, 3]);
    assert_eq!(asked.len(), 4);
    assert_eq!(told.len(), 2);
    assert_eq!(copier.copied(), 0);
    assert_eq!(copier.attempted(), 2);
}
