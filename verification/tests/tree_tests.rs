use citadelle::common::{generate_id, is_text_file};
use citadelle::errs::FsError;
use citadelle::tree::{list_directory, FileItem, RawEntry, RawListing, RootDir};

fn file(name: &str, path: &str) -> RawEntry {
    RawEntry::File { name: name.to_string(), path: path.to_string(), content: None }
}

fn dir(name: &str, path: &str, listing: RawListing) -> RawEntry {
    RawEntry::Dir { name: name.to_string(), path: path.to_string(), listing }
}

#[test]
fn listing_filters_hidden_ignored_and_non_text() {
    let entries = vec![
        file("b.md", "/p/b.md"),
        file(".hidden.md", "/p/.hidden.md"),
        dir("node_modules", "/p/node_modules", RawListing::Unread),
        dir("target", "/p/target", RawListing::Unread),
        file("tool.exe", "/p/tool.exe"),
        dir("src", "/p/src", RawListing::Unread),
    ];
    let items = list_directory(&RootDir::Entries(entries), false).unwrap();
    let names: Vec<&str> = items.iter().map(|i| i.name.as_str()).collect();
    assert_eq!(names, vec!["src", "b.md"]);
    assert_eq!(items[0].item_type, "folder");
    assert_eq!(items[1].item_type, "file");
    assert!(items.iter().all(|i| i.children.is_none()));
}

#[test]
fn listing_orders_folders_first_then_case_insensitive() {
    let entries = vec![
        file("Zeta.md", "/p/Zeta.md"),
        file("alpha.md", "/p/alpha.md"),
        dir("beta", "/p/beta", RawListing::Unread),
        dir("Alpha", "/p/Alpha", RawListing::Unread),
        file("Beta.md", "/p/Beta.md"),
    ];
    let items = list_directory(&RootDir::Entries(entries), false).unwrap();
    let names: Vec<&str> = items.iter().map(|i| i.name.as_str()).collect();
    assert_eq!(names, vec!["Alpha", "beta", "alpha.md", "Beta.md", "Zeta.md"]);
}

#[test]
fn recursive_listing_builds_ordered_children() {
    let sub = vec![file("y.md", "/p/d/y.md"), file("X.md", "/p/d/X.md")];
    let entries = vec![
        dir("d", "/p/d", RawListing::Entries(sub)),
        file("a.md", "/p/a.md"),
    ];
    let items = list_directory(&RootDir::Entries(entries), true).unwrap();
    assert_eq!(items[0].name, "d");
    let children: &Vec<FileItem> = items[0].children.as_ref().unwrap();
    let names: Vec<&str> = children.iter().map(|i| i.name.as_str()).collect();
    assert_eq!(names, vec!["X.md", "y.md"]);
    assert_eq!(items[1].name, "a.md");
}

#[test]
fn unreadable_subtree_degrades_to_absent_children() {
    let entries = vec![dir("d", "/p/d", RawListing::ReadFailed("denied".to_string()))];
    let items = list_directory(&RootDir::Entries(entries), true).unwrap();
    assert_eq!(items.len(), 1);
    assert!(items[0].children.is_none());
}

#[test]
fn non_recursive_listing_leaves_children_absent() {
    let sub = vec![file("y.md", "/p/d/y.md")];
    let entries = vec![dir("d", "/p/d", RawListing::Entries(sub))];
    let items = list_directory(&RootDir::Entries(entries), false).unwrap();
    assert!(items[0].children.is_none());
}

#[test]
fn root_failures_are_errors() {
    let r = list_directory(&RootDir::NotADirectory, false);
    assert!(matches!(r, Err(FsError::NotADirectory)));
    let r = list_directory(&RootDir::ReadFailed("io broke".to_string()), false);
    match r {
        Err(FsError::Io { message }) => assert_eq!(message, "io broke"),
        _ => panic!("expected an io error"),
    }
}

#[test]
fn item_ids_are_the_hash_of_the_path() {
    let entries = vec![file("a.md", "/p/a.md")];
    let items = list_directory(&RootDir::Entries(entries), false).unwrap();
    assert_eq!(items[0].id, generate_id("/p/a.md"));
}

#[test]
fn generate_id_is_deterministic_lowercase_hex() {
    let a = generate_id("/some/path.md");
    let b = generate_id("/some/path.md");
    assert_eq!(a, b);
    assert!(!a.is_empty());
    assert!(a.chars().all(|c| c.is_ascii_hexdigit() && !c.is_ascii_uppercase()));
    assert_ne!(generate_id("/some/path.md"), generate_id("/some/other.md"));
}

#[test]
fn text_whitelist_is_case_folded_and_closed() {
    assert!(is_text_file("/p/readme.md"));
    assert!(is_text_file("/p/README.MD"));
    assert!(is_text_file("/p/app.tsx"));
    assert!(is_text_file("/p/run.sh"));
    assert!(!is_text_file("/p/archive.zip"));
    assert!(!is_text_file("/p/noext"));
    assert!(!is_text_file("/p/.gitignore"));
}
