use fast_copy::bytes::{bytes_between, bytes_copy, bytes_equal};
use fast_copy::path::FilePath;

fn path(root: &str, names: &[&str]) -> FilePath {
    FilePath::new(
        root.as_bytes().to_vec(),
        names.iter().map(|name| name.as_bytes().to_vec()).collect(),
    )
}

#[test]
fn byte_strings_are_compared_and_copied_byte_for_byte() {
    assert!(bytes_equal(b"abc", b"abc"));
    assert!(bytes_equal(b"", b""));
    assert!(!bytes_equal(b"abc", b"abd"));
    assert!(!bytes_equal(b"abc", b"ab"));
    assert_eq!(bytes_copy(b"a.txt"), b"a.txt".to_vec());
    assert_eq!(bytes_between(b"a.txt", 2, 5), b"txt".to_vec());
    assert_eq!(bytes_between(b"a.txt", 2, 2), Vec::<u8>::new());
}

#[test]
fn paths_are_equal_by_their_parts() {
    assert_eq!(path("/", &["a", "b"]), path("/", &["a", "b"]));
    assert_ne!(path("/", &["a", "b"]), path("", &["a", "b"]));
    assert_ne!(path("/", &["a", "b"]), path("/", &["a"]));
    assert_ne!(path("/", &["a", "b"]), path("/", &["a", "c"]));
    assert_eq!(path("", &[]), path("", &[]));
    let first = path("/", &["src", "a.txt"]);
    assert_eq!(first.clone(), first);
}

#[test]
fn a_path_is_absolute_when_it_has_a_root() {
    assert!(path("/", &["a"]).is_absolute());
    assert!(!path("/", &["a"]).is_relative());
    assert!(path("", &["a"]).is_relative());
    assert!(!path("", &["a"]).is_absolute());
    assert!(path("/", &[]).is_absolute());
}

#[test]
fn a_path_lies_under_each_of_its_beginnings() {
    let file = path("/", &["src", "sub", "c.csv"]);
    assert!(file.lies_under(&path("/", &[])));
    assert!(file.lies_under(&path("/", &["src"])));
    assert!(file.lies_under(&path("/", &["src", "sub"])));
    assert!(file.lies_under(&file));
    assert!(!file.lies_under(&path("/", &["sr"])));
    assert!(!file.lies_under(&path("/", &["src", "sub", "c.csv", "d"])));
    assert!(!file.lies_under(&path("", &["src"])));
    assert!(!file.lies_under(&path("/", &["dst"])));
}

#[test]
fn the_way_down_from_a_base_is_relative() {
    let file = path("/", &["src", "sub", "c.csv"]);
    assert_eq!(file.relative_to(&path("/", &["src"])), Some(path("", &["sub", "c.csv"])));
    assert_eq!(file.relative_to(&file), Some(path("", &[])));
    assert_eq!(file.relative_to(&path("/", &["dst"])), None);
    assert_eq!(file.relative_to(&path("", &["src"])), None);
}

#[test]
fn joining_appends_a_relative_path_and_yields_to_an_absolute_one() {
    let base = path("/", &["dst"]);
    assert_eq!(base.join(&path("", &["sub", "c.csv"])), path("/", &["dst", "sub", "c.csv"]));
    assert_eq!(base.join(&path("", &[])), base);
    assert_eq!(base.join(&path("/", &["etc"])), path("/", &["etc"]));
    assert_eq!(path("", &["a"]).join(&path("", &["b"])), path("", &["a", "b"]));
}

#[test]
fn a_child_is_one_name_further_down() {
    assert_eq!(path("/", &["src"]).child(b"a.txt"), path("/", &["src", "a.txt"]));
    assert_eq!(path("", &[]).child(b"a"), path("", &["a"]));
}

#[test]
fn the_parent_is_one_name_further_up() {
    assert_eq!(path("/", &["dst", "sub", "c.csv"]).parent(), Some(path("/", &["dst", "sub"])));
    assert_eq!(path("/", &["a"]).parent(), Some(path("/", &[])));
    assert_eq!(path("", &["a"]).parent(), Some(path("", &[])));
    assert_eq!(path("/", &[]).parent(), None);
    assert_eq!(path("", &[]).parent(), None);
}

#[test]
fn the_file_name_is_the_last_name() {
    assert_eq!(path("/", &["src", "a.txt"]).file_name(), Some(&b"a.txt"[..]));
    assert_eq!(path("/", &[]).file_name(), None);
}

#[test]
fn a_file_is_rebased_by_the_way_down_from_its_source() {
    let source = path("/", &["home", "me", "src"]);
    let destination = path("/", &["mnt", "dst"]);
    let file = path("/", &["home", "me", "src", "sub", "c.csv"]);
    let target = file.rebase(&source, &destination);
    assert_eq!(target, path("/", &["mnt", "dst", "sub", "c.csv"]));
    assert_eq!(target.relative_to(&destination), file.relative_to(&source));
    assert_eq!(source.rebase(&source, &destination), destination);
}

#[test]
fn a_file_is_its_own_target_only_where_the_destination_is_the_source() {
    let source = path("/", &["src"]);
    let file = path("/", &["src", "a.txt"]);
    assert_eq!(file.rebase(&source, &source), file);
    assert_ne!(file.rebase(&source, &path("/", &["dst"])), file);
    assert_ne!(file.rebase(&source, &path("/", &["src", "src"])), file);
    assert_ne!(file.rebase(&source, &path("", &["src"])), file);
}

#[test]
fn a_relative_path_is_resolved_against_a_base_and_an_absolute_one_stands() {
    let cwd = path("/", &["home", "me"]);
    assert_eq!(path("", &["src"]).resolve(&cwd), path("/", &["home", "me", "src"]));
    assert_eq!(path("", &["..", "x"]).resolve(&cwd), path("/", &["home", "me", "..", "x"]));
    assert_eq!(path("", &[]).resolve(&cwd), cwd);
    assert_eq!(path("/", &["src"]).resolve(&cwd), path("/", &["src"]));
}
