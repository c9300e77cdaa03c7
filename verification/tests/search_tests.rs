use citadelle::errs::FsError;
use citadelle::search::{search_in_file, search_in_project, SearchHit};
use citadelle::tree::{RawEntry, RawListing, RootDir};

fn text_file(name: &str, path: &str, content: &str) -> RawEntry {
    RawEntry::File {
        name: name.to_string(),
        path: path.to_string(),
        content: Some(content.to_string()),
    }
}

fn exts(xs: &[&str]) -> Vec<String> {
    xs.iter().map(|x| x.to_string()).collect()
}

#[test]
fn blank_query_returns_nothing_whatever_the_root() {
    let r = search_in_project(&RootDir::NotADirectory, "", &exts(&["md"])).unwrap();
    assert!(r.is_empty());
    let r = search_in_project(&RootDir::NotADirectory, "   \t ", &exts(&["md"])).unwrap();
    assert!(r.is_empty());
}

#[test]
fn non_overlapping_matches_aaa_query_aa() {
    // The scan resumes past each match: "aa" in "aaa" matches once.
    let root = RootDir::Entries(vec![text_file("a.md", "/p/a.md", "aaa")]);
    let hits = search_in_project(&root, "aa", &exts(&["md"])).unwrap();
    assert_eq!(hits.len(), 1);
    assert_eq!(hits[0].line, 1);
    assert_eq!(hits[0].column, 1);
    assert_eq!(hits[0].match_text, "aa");
}

#[test]
fn case_insensitive_hits_with_verbatim_match_text() {
    let root = RootDir::Entries(vec![text_file(
        "report.txt",
        "/p/report.txt",
        "The Quick fox\nquick brown FOX",
    )]);
    let hits = search_in_project(&root, "quick", &exts(&[".txt"])).unwrap();
    assert_eq!(hits.len(), 2);
    assert_eq!(hits[0].line, 1);
    assert_eq!(hits[0].column, 5);
    assert_eq!(hits[0].match_text, "Quick");
    assert_eq!(hits[1].line, 2);
    assert_eq!(hits[1].column, 1);
    assert_eq!(hits[1].match_text, "quick");
}

#[test]
fn results_are_capped_at_five_hundred_in_discovery_order() {
    let mut content = String::new();
    for _ in 0..501 {
        content.push_str("needle\n");
    }
    let root = RootDir::Entries(vec![text_file("big.md", "/p/big.md", &content)]);
    let hits = search_in_project(&root, "needle", &exts(&["md"])).unwrap();
    assert_eq!(hits.len(), 500);
    assert_eq!(hits[0].line, 1);
    assert_eq!(hits[499].line, 500);
}

#[test]
fn context_gets_ellipses_on_truncated_sides() {
    let line = format!("{}NEEDLE{}", "a".repeat(40), "b".repeat(40));
    let hits = search_in_file("/p/x.md", "x.md", &line, "needle");
    assert_eq!(hits.len(), 1);
    assert_eq!(hits[0].column, 41);
    let expected = format!("...{}NEEDLE{}...", "a".repeat(30), "b".repeat(30));
    assert_eq!(hits[0].context, expected);
}

#[test]
fn context_is_trimmed_when_not_truncated() {
    let hits = search_in_file("/p/x.md", "x.md", "   hello world   ", "world");
    assert_eq!(hits.len(), 1);
    assert_eq!(hits[0].context, "hello world");
    assert_eq!(hits[0].column, 10);
}

#[test]
fn extension_selection_folds_case_and_ignores_a_leading_dot() {
    let root = RootDir::Entries(vec![text_file("a.TXT", "/p/a.TXT", "word")]);
    assert_eq!(search_in_project(&root, "word", &exts(&["txt"])).unwrap().len(), 1);
    let root = RootDir::Entries(vec![text_file("a.txt", "/p/a.txt", "word")]);
    assert_eq!(search_in_project(&root, "word", &exts(&[".TXT"])).unwrap().len(), 1);
    let root = RootDir::Entries(vec![text_file("a.txt", "/p/a.txt", "word")]);
    assert!(search_in_project(&root, "word", &exts(&["md"])).unwrap().is_empty());
}

#[test]
fn hidden_and_ignored_names_are_skipped() {
    let root = RootDir::Entries(vec![
        text_file(".secret.md", "/p/.secret.md", "word"),
        RawEntry::Dir {
            name: "node_modules".to_string(),
            path: "/p/node_modules".to_string(),
            listing: RawListing::Entries(vec![text_file("m.md", "/p/node_modules/m.md", "word")]),
        },
        text_file("ok.md", "/p/ok.md", "word"),
    ]);
    let hits = search_in_project(&root, "word", &exts(&["md"])).unwrap();
    assert_eq!(hits.len(), 1);
    assert_eq!(hits[0].document_path, "/p/ok.md");
}

#[test]
fn unreadable_file_is_skipped_silently() {
    let root = RootDir::Entries(vec![
        RawEntry::File { name: "bad.md".to_string(), path: "/p/bad.md".to_string(), content: None },
        text_file("good.md", "/p/good.md", "word"),
    ]);
    let hits = search_in_project(&root, "word", &exts(&["md"])).unwrap();
    assert_eq!(hits.len(), 1);
    assert_eq!(hits[0].document_name, "good.md");
}

#[test]
fn unreadable_directory_fails_the_whole_search() {
    let root = RootDir::Entries(vec![
        text_file("good.md", "/p/good.md", "word"),
        RawEntry::Dir {
            name: "locked".to_string(),
            path: "/p/locked".to_string(),
            listing: RawListing::ReadFailed("permission denied".to_string()),
        },
    ]);
    let r = search_in_project(&root, "word", &exts(&["md"]));
    match r {
        Err(FsError::Io { message }) => assert_eq!(message, "permission denied"),
        _ => panic!("expected an io error"),
    }
}

#[test]
fn depth_first_discovery_order() {
    let sub = vec![text_file("in.md", "/p/d/in.md", "word")];
    let root = RootDir::Entries(vec![
        RawEntry::Dir {
            name: "d".to_string(),
            path: "/p/d".to_string(),
            listing: RawListing::Entries(sub),
        },
        text_file("after.md", "/p/after.md", "word"),
    ]);
    let hits: Vec<SearchHit> = search_in_project(&root, "word", &exts(&["md"])).unwrap();
    assert_eq!(hits[0].document_path, "/p/d/in.md");
    assert_eq!(hits[1].document_path, "/p/after.md");
}

#[test]
fn crlf_lines_and_final_line_without_newline() {
    let hits = search_in_file("/p/x.md", "x.md", "one\r\ntwo\nthree", "t");
    // "two" line 2 col 1; "three" line 3 col 1.
    assert_eq!(hits.len(), 2);
    assert_eq!((hits[0].line, hits[0].column), (2, 1));
    assert_eq!((hits[1].line, hits[1].column), (3, 1));
}

#[test]
fn multiple_matches_on_one_line_advance_past_each_span() {
    let hits = search_in_file("/p/x.md", "x.md", "ab ab ab", "ab");
    assert_eq!(hits.len(), 3);
    assert_eq!(hits[0].column, 1);
    assert_eq!(hits[1].column, 4);
    assert_eq!(hits[2].column, 7);
}

#[test]
fn cap_applies_across_files_in_discovery_order() {
    let mut content = String::new();
    for _ in 0..300 {
        content.push_str("needle\n");
    }
    let root = RootDir::Entries(vec![
        text_file("a.md", "/p/a.md", &content),
        text_file("b.md", "/p/b.md", &content),
    ]);
    let hits = search_in_project(&root, "needle", &exts(&["md"])).unwrap();
    assert_eq!(hits.len(), 500);
    assert!(hits[..300].iter().all(|h| h.document_name == "a.md"));
    assert!(hits[300..].iter().all(|h| h.document_name == "b.md"));
    assert_eq!(hits[499].line, 200);
}
