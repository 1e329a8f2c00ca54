use fast_copy::error::CopyError;
use fast_copy::path::FilePath;
use fast_copy::scanner::{DirEntry, EntryClass, EntryKind, Scanner};

fn at(names: &[&str]) -> FilePath {
    FilePath::new(b"/".to_vec(), names.iter().map(|name| name.as_bytes().to_vec()).collect())
}

fn file(name: &str) -> DirEntry {
    DirEntry::new(name.as_bytes().to_vec(), EntryKind::File)
}

fn dir(name: &str) -> DirEntry {
    DirEntry::new(name.as_bytes().to_vec(), EntryKind::Directory)
}

fn other(name: &str) -> DirEntry {
    DirEntry::new(name.as_bytes().to_vec(), EntryKind::Other)
}

#[test]
fn entries_are_classed_by_kind_and_extension() {
    assert_eq!(file("a.txt").class(), EntryClass::EligibleFile);
    assert_eq!(file("b.jpg").class(), EntryClass::IneligibleFile);
    assert_eq!(file("README").class(), EntryClass::IneligibleFile);
    assert_eq!(dir("sub").class(), EntryClass::Directory);
    assert_eq!(dir("sub.txt").class(), EntryClass::Directory);
    assert_eq!(other("pipe.txt").class(), EntryClass::Other);
}

#[test]
fn a_scan_begins_by_waiting_for_its_root() {
    let scanner = Scanner::new(at(&["src"]));
    assert_eq!(scanner.root(), &at(&["src"]));
    assert_eq!(scanner.pending(), Some(&at(&["src"])));
    assert!(scanner.files().is_empty());
}

#[test]
fn the_scan_of_the_example_tree_notes_two_files() {
    let mut scanner = Scanner::new(at(&["src"]));
    assert_eq!(scanner.answer(Ok(vec![file("a.txt"), file("b.jpg"), dir("sub")])), None);
    assert_eq!(scanner.pending(), Some(&at(&["src", "sub"])));
    assert_eq!(scanner.answer(Ok(vec![file("c.csv")])), None);
    assert_eq!(scanner.pending(), None);
    assert_eq!(scanner.into_files(), vec![at(&["src", "a.txt"]), at(&["src", "sub", "c.csv"])]);
}

#[test]
fn an_empty_tree_holds_no_files() {
    let mut scanner = Scanner::new(at(&["src"]));
    assert_eq!(scanner.answer(Ok(vec![])), None);
    assert_eq!(scanner.pending(), None);
    assert!(scanner.into_files().is_empty());
}

#[test]
fn a_directory_is_walked_where_the_scan_meets_it() {
    let mut scanner = Scanner::new(at(&["s"]));
    scanner.answer(Ok(vec![file("1.txt"), dir("d"), file("4.txt"), dir("e"), file("6.txt")]));
    assert_eq!(scanner.files(), &vec![at(&["s", "1.txt"])]);
    assert_eq!(scanner.pending(), Some(&at(&["s", "d"])));
    scanner.answer(Ok(vec![dir("deep"), file("3.txt")]));
    assert_eq!(scanner.pending(), Some(&at(&["s", "d", "deep"])));
    scanner.answer(Ok(vec![file("2.txt")]));
    assert_eq!(
        scanner.files(),
        &vec![
            at(&["s", "1.txt"]),
            at(&["s", "d", "deep", "2.txt"]),
            at(&["s", "d", "3.txt"]),
            at(&["s", "4.txt"]),
        ]
    );
    assert_eq!(scanner.pending(), Some(&at(&["s", "e"])));
    scanner.answer(Ok(vec![file("5.txt")]));
    assert_eq!(scanner.pending(), None);
    assert_eq!(
        scanner.into_files(),
        vec![
            at(&["s", "1.txt"]),
            at(&["s", "d", "deep", "2.txt"]),
            at(&["s", "d", "3.txt"]),
            at(&["s", "4.txt"]),
            at(&["s", "e", "5.txt"]),
            at(&["s", "6.txt"]),
        ]
    );
}

#[test]
fn a_directory_that_cannot_be_listed_costs_its_own_files_only() {
    let mut scanner = Scanner::new(at(&["src"]));
    scanner.answer(Ok(vec![dir("locked"), file("a.txt"), dir("open")]));
    assert_eq!(scanner.pending(), Some(&at(&["src", "locked"])));
    let report = scanner.answer(Err("permission denied".to_string()));
    assert_eq!(
        report,
        Some(CopyError::DirectoryUnreadable {
            path: at(&["src", "locked"]),
            cause: "permission denied".to_string(),
        })
    );
    assert_eq!(scanner.pending(), Some(&at(&["src", "open"])));
    scanner.answer(Ok(vec![file("b.png")]));
    assert_eq!(scanner.pending(), None);
    assert_eq!(scanner.into_files(), vec![at(&["src", "a.txt"]), at(&["src", "open", "b.png"])]);
}

#[test]
fn a_root_that_cannot_be_listed_ends_the_scan_with_nothing() {
    let mut scanner = Scanner::new(at(&["gone"]));
    let report = scanner.answer(Err("entity not found".to_string()));
    assert_eq!(
        report,
        Some(CopyError::DirectoryUnreadable {
            path: at(&["gone"]),
            cause: "entity not found".to_string(),
        })
    );
    assert_eq!(scanner.pending(), None);
    assert!(scanner.into_files().is_empty());
}

#[test]
fn what_is_neither_file_nor_directory_is_passed_over() {
    let mut scanner = Scanner::new(at(&["src"]));
    scanner.answer(Ok(vec![other("broken.txt"), other("sock"), file("a.txt")]));
    assert_eq!(scanner.pending(), None);
    assert_eq!(scanner.into_files(), vec![at(&["src", "a.txt"])]);
}

#[test]
fn a_directory_is_walked_whatever_its_name() {
    let mut scanner = Scanner::new(at(&["src"]));
    scanner.answer(Ok(vec![dir("pictures.jpg"), dir(".git")]));
    assert_eq!(scanner.pending(), Some(&at(&["src", "pictures.jpg"])));
    scanner.answer(Ok(vec![file("a.png"), file("b.jpg")]));
    assert_eq!(scanner.pending(), Some(&at(&["src", ".git"])));
    scanner.answer(Ok(vec![file("config")]));
    assert_eq!(scanner.pending(), None);
    assert_eq!(scanner.into_files(), vec![at(&["src", "pictures.jpg", "a.png"])]);
}

#[test]
fn an_answer_to_a_finished_scan_changes_nothing() {
    let mut scanner = Scanner::new(at(&["src"]));
    scanner.answer(Ok(vec![file("a.txt")]));
    assert_eq!(scanner.pending(), None);
    assert_eq!(scanner.answer(Ok(vec![file("b.txt")])), None);
    assert_eq!(scanner.answer(Err("late".to_string())), None);
    assert_eq!(scanner.pending(), None);
    assert_eq!(scanner.into_files(), vec![at(&["src", "a.txt"])]);
}

#[test]
fn every_noted_file_lies_under_the_root_and_is_eligible() {
    let mut scanner = Scanner::new(at(&["src"]));
    scanner.answer(Ok(vec![file("a.txt"), file("b.jpg"), dir("x"), dir("y"), file("z")]));
    scanner.answer(Ok(vec![file("c.pdf"), other("d.pdf")]));
    scanner.answer(Err("busy".to_string()));
    assert_eq!(scanner.pending(), None);
    let root = at(&["src"]);
    let files = scanner.into_files();
    assert_eq!(files.len(), 2);
    for found in &files {
        assert!(found.lies_under(&root));
        assert!(fast_copy::extension::is_eligible(found.file_name().unwrap()));
    }
}

#[test]
fn two_entries_of_one_name_are_two_files() {
    let mut scanner = Scanner::new(at(&["src"]));
    scanner.answer(Ok(vec![file("a.txt"), file("a.txt")]));
    assert_eq!(scanner.into_files(), vec![at(&["src", "a.txt"]), at(&["src", "a.txt"])]);
}
