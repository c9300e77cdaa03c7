use citadelle::clients::{build_client_display_name, like_pattern};
use citadelle::exhibits::{is_exhibit_file, list_exhibit_files};
use citadelle::sessions::{
    done_file_name, is_active, mark_cancelled, mark_completed, meta_file_name, new_session,
    session_file_name, session_id_from_millis,
};
use citadelle::tree::{RawEntry, RawListing};
use citadelle::urls::{document_new_url, note_modified_url};

fn s(x: &str) -> Option<String> {
    Some(x.to_string())
}

#[test]
fn display_name_for_a_legal_entity_is_the_denomination() {
    let r = build_client_display_name(&s("Durand"), &s("Paul"), &s("ACME SARL"), &s("PersonneMorale"));
    assert_eq!(r.as_deref(), Some("ACME SARL"));
}

#[test]
fn display_name_for_a_person_joins_first_and_last() {
    let r = build_client_display_name(&s("Durand"), &s("Paul"), &None, &s("PersonnePhysique"));
    assert_eq!(r.as_deref(), Some("Paul Durand"));
    let r = build_client_display_name(&s("Durand"), &None, &None, &None);
    assert_eq!(r.as_deref(), Some("Durand"));
    let r = build_client_display_name(&None, &s("Paul"), &None, &None);
    assert_eq!(r.as_deref(), Some("Paul"));
}

#[test]
fn display_name_falls_back_to_the_denomination() {
    let r = build_client_display_name(&None, &None, &s("ACME"), &None);
    assert_eq!(r.as_deref(), Some("ACME"));
    let r = build_client_display_name(&None, &None, &None, &None);
    assert_eq!(r, None);
}

#[test]
fn like_pattern_folds_and_wraps() {
    assert_eq!(like_pattern("AbC"), "%abc%");
    assert_eq!(like_pattern(""), "%%");
}

#[test]
fn session_file_names_are_derived_from_the_id() {
    assert_eq!(session_file_name("17f3"), "17f3.session.json");
    assert_eq!(done_file_name("17f3"), "17f3.done");
    assert_eq!(meta_file_name("doc.md"), "doc.md.meta.json");
    assert_eq!(session_id_from_millis(0x17f3), "17f3");
}

#[test]
fn sessions_start_active_and_transition() {
    let mut sess = new_session("/tmp/f.md", &s("d1"), &None, "aa11", "1700000000");
    assert!(is_active(&sess));
    assert_eq!(sess.original_path, "/tmp/f.md");
    assert_eq!(sess.working_path, "/tmp/f.md");
    assert_eq!(sess.status, "active");
    mark_completed(&mut sess);
    assert_eq!(sess.status, "completed");
    assert!(!is_active(&sess));
    assert_eq!(sess.session_id, "aa11");
    mark_cancelled(&mut sess);
    assert_eq!(sess.status, "cancelled");
}

#[test]
fn exhibit_whitelist_is_case_folded() {
    assert!(is_exhibit_file("/e/scan.PDF"));
    assert!(is_exhibit_file("/e/sheet.xlsx"));
    assert!(is_exhibit_file("/e/mail.eml"));
    assert!(!is_exhibit_file("/e/notes.md"));
    assert!(!is_exhibit_file("/e/noext"));
}

#[test]
fn exhibit_listing_keeps_only_documents_sorted_by_name() {
    let entries = vec![
        RawEntry::File {
            name: "b.pdf".to_string(),
            path: "/e/b.pdf".to_string(),
            content: None,
        },
        RawEntry::Dir {
            name: "sub".to_string(),
            path: "/e/sub".to_string(),
            listing: RawListing::Unread,
        },
        RawEntry::File {
            name: "Alpha.docx".to_string(),
            path: "/e/Alpha.docx".to_string(),
            content: None,
        },
        RawEntry::File {
            name: "code.rs".to_string(),
            path: "/e/code.rs".to_string(),
            content: None,
        },
    ];
    let files = list_exhibit_files(&entries);
    let names: Vec<&str> = files.iter().map(|f| f.name.as_str()).collect();
    assert_eq!(names, vec!["Alpha.docx", "b.pdf"]);
    assert_eq!(files[0].path, "/e/Alpha.docx");
}

#[test]
fn note_url_percent_encodes_path_and_id() {
    let u = note_modified_url("/a b/c.md", "id-1");
    assert_eq!(u, "goldocab://note/modified?path=%2Fa%20b%2Fc.md&noteID=id-1");
}

#[test]
fn document_url_appends_the_dossier_verbatim() {
    let u = document_new_url("/out/doc.md", &s("D42"));
    assert_eq!(u, "goldocab://document/new?path=%2Fout%2Fdoc.md&source=citadelle&dossierID=D42");
    let u = document_new_url("/out/doc.md", &None);
    assert_eq!(u, "goldocab://document/new?path=%2Fout%2Fdoc.md&source=citadelle");
}
