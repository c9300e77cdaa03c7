use citadelle::clock::{chrono_iso8601_now, is_leap_year, time_to_iso8601};
use citadelle::common::chrono_now;
use citadelle::notes::{
    build_note_entry, compose_note_content, create_note_document, fresh_note_id,
    list_goldocab_notes, note_filename, parse_frontmatter, read_goldocab_note,
    serialize_frontmatter, slugify, updated_note_content, NoteFrontmatter, NoteSource,
};

fn sample_fm() -> NoteFrontmatter {
    NoteFrontmatter {
        id: "abc-123".to_string(),
        title: "My \"Quoted\" Note".to_string(),
        dossier_id: Some("d1".to_string()),
        client_id: None,
        folder_id: None,
        tags: vec!["work".to_string(), "urgent".to_string()],
        is_pinned: true,
        color: None,
        created_at: "2024-01-01T00:00:00Z".to_string(),
        updated_at: "2024-01-02T00:00:00Z".to_string(),
    }
}

#[test]
fn serialize_renders_the_exact_block() {
    let s = serialize_frontmatter(&sample_fm());
    let expected = "---\nid: \"abc-123\"\ntitle: \"My \\\"Quoted\\\" Note\"\ndossierID: \"d1\"\ntags: [\"work\", \"urgent\"]\nisPinned: true\ncreatedAt: \"2024-01-01T00:00:00Z\"\nupdatedAt: \"2024-01-02T00:00:00Z\"\n---";
    assert_eq!(s, expected);
}

#[test]
fn parse_reads_back_what_serialize_wrote() {
    let doc = compose_note_content(&sample_fm(), "Body text here.");
    let (fm, body) = parse_frontmatter(&doc);
    let fm = fm.expect("frontmatter expected");
    assert_eq!(fm.id, "abc-123");
    assert_eq!(fm.title, "My \"Quoted\" Note");
    assert_eq!(fm.dossier_id.as_deref(), Some("d1"));
    assert_eq!(fm.client_id, None);
    assert_eq!(fm.tags, vec!["work".to_string(), "urgent".to_string()]);
    assert!(fm.is_pinned);
    assert_eq!(fm.created_at, "2024-01-01T00:00:00Z");
    assert_eq!(fm.updated_at, "2024-01-02T00:00:00Z");
    assert_eq!(body, "Body text here.\n");
}

#[test]
fn parse_without_fences_yields_plain_body() {
    let (fm, body) = parse_frontmatter("just a note");
    assert!(fm.is_none());
    assert_eq!(body, "just a note");
}

#[test]
fn parse_without_id_or_created_at_yields_plain_body() {
    let doc = "---\ntitle: \"x\"\n---\nbody";
    let (fm, body) = parse_frontmatter(doc);
    assert!(fm.is_none());
    assert_eq!(body, doc);
}

#[test]
fn parse_handles_null_and_unquoted_values() {
    let doc = "---\nid: n1\ncolor: null\ndossierID: \n createdAt: 2024\ntags: [a, \"b\", ]\n---\nhello";
    let (fm, body) = parse_frontmatter(doc);
    let fm = fm.expect("frontmatter expected");
    assert_eq!(fm.id, "n1");
    assert_eq!(fm.color, None);
    assert_eq!(fm.dossier_id, None);
    assert_eq!(fm.created_at, "2024");
    assert_eq!(fm.tags, vec!["a".to_string(), "b".to_string()]);
    assert_eq!(body, "hello");
}

#[test]
fn parse_default_title_is_untitled() {
    let doc = "---\nid: n1\ncreatedAt: 2024\n---\n";
    let (fm, _) = parse_frontmatter(doc);
    assert_eq!(fm.unwrap().title, "Sans titre");
}

#[test]
fn compose_without_body_ends_after_the_block() {
    let doc = compose_note_content(&sample_fm(), "");
    assert!(doc.ends_with("---\n"));
    assert!(!doc.ends_with("\n\n"));
}

#[test]
fn slugify_maps_cases_and_compacts_dashes() {
    assert_eq!(slugify("Hello, World!"), "hello-world");
    assert_eq!(slugify("  "), "sans-titre");
    assert_eq!(slugify("///"), "sans-titre");
    assert_eq!(slugify("Déjà vu"), "d-j-vu");
    let long = "a".repeat(80);
    assert_eq!(slugify(&long).len(), 60);
}

#[test]
fn note_filename_joins_slug_and_short_id() {
    let f = note_filename("My Note", "0123456789abcdef");
    assert_eq!(f, "my-note-01234567.md");
}

#[test]
fn create_note_document_builds_name_and_content() {
    let (name, content) = create_note_document(
        "Plan",
        "the body",
        &Some("d9".to_string()),
        &None,
        &vec!["t1".to_string()],
        "aaaabbbb-cccc-dddd-eeee-ffff00001111",
        "2024-05-01T10:00:00Z",
    );
    assert_eq!(name, "plan-aaaabbbb.md");
    let (fm, body) = parse_frontmatter(&content);
    let fm = fm.unwrap();
    assert_eq!(fm.id, "aaaabbbb-cccc-dddd-eeee-ffff00001111");
    assert_eq!(fm.title, "Plan");
    assert_eq!(fm.dossier_id.as_deref(), Some("d9"));
    assert_eq!(fm.tags, vec!["t1".to_string()]);
    assert_eq!(fm.created_at, "2024-05-01T10:00:00Z");
    assert_eq!(body, "the body\n");
}

#[test]
fn updated_note_content_touches_only_updated_at() {
    let (fm2, content) = updated_note_content(&sample_fm(), "new body", "2025-01-01T00:00:00Z");
    assert_eq!(fm2.updated_at, "2025-01-01T00:00:00Z");
    assert_eq!(fm2.created_at, "2024-01-01T00:00:00Z");
    assert_eq!(fm2.id, "abc-123");
    let (fm3, body) = parse_frontmatter(&content);
    assert_eq!(fm3.unwrap().updated_at, "2025-01-01T00:00:00Z");
    assert_eq!(body, "new body\n");
}

#[test]
fn read_note_carries_the_path_through() {
    let doc = compose_note_content(&sample_fm(), "b");
    let r = read_goldocab_note("/notes/a.md", &doc);
    assert_eq!(r.path, "/notes/a.md");
    assert!(r.frontmatter.is_some());
    assert_eq!(r.body, "b\n");
}

#[test]
fn fresh_note_id_is_hyphenated_lowercase_hex() {
    let id = fresh_note_id();
    let cs: Vec<char> = id.chars().collect();
    assert_eq!(cs.len(), 36);
    for (i, c) in cs.iter().enumerate() {
        if i == 8 || i == 13 || i == 18 || i == 23 {
            assert_eq!(*c, '-');
        } else {
            assert!(c.is_ascii_hexdigit() && !c.is_ascii_uppercase());
        }
    }
    assert_ne!(fresh_note_id(), fresh_note_id());
}

#[test]
fn note_entry_counts_words_and_clips_the_excerpt() {
    let body = "one two  three\nfour";
    let doc = format!("---\nid: n1\ncreatedAt: t\n---\n{}", body);
    let src = NoteSource {
        path: "/n/a.md".to_string(),
        filename: "a.md".to_string(),
        folder: "".to_string(),
        content: doc,
    };
    let e = build_note_entry(&src);
    assert_eq!(e.word_count, 4);
    assert_eq!(e.excerpt, body);
    assert_eq!(e.id.as_deref(), Some("n1"));
    let long_body = "x".repeat(300);
    let doc = format!("---\nid: n1\ncreatedAt: t\n---\n{}", long_body);
    let src = NoteSource {
        path: "/n/b.md".to_string(),
        filename: "b.md".to_string(),
        folder: "".to_string(),
        content: doc,
    };
    let e = build_note_entry(&src);
    assert_eq!(e.excerpt.len(), 200);
}

#[test]
fn note_listing_is_most_recently_updated_first() {
    let mk = |name: &str, upd: &str| NoteSource {
        path: format!("/n/{}", name),
        filename: name.to_string(),
        folder: "".to_string(),
        content: format!("---\nid: i\ncreatedAt: c\nupdatedAt: {}\n---\nx", upd),
    };
    let files = vec![mk("a.md", "2024-01-01"), mk("b.md", "2024-06-01"), mk("c.md", "2024-03-01")];
    let entries = list_goldocab_notes(&files);
    let names: Vec<&str> = entries.iter().map(|e| e.filename.as_str()).collect();
    assert_eq!(names, vec!["b.md", "c.md", "a.md"]);
}

#[test]
fn leap_years_follow_the_gregorian_rule() {
    assert!(is_leap_year(2000));
    assert!(is_leap_year(2024));
    assert!(!is_leap_year(1900));
    assert!(!is_leap_year(2023));
}

#[test]
fn iso8601_formats_known_instants() {
    assert_eq!(time_to_iso8601(0), "1970-01-01T00:00:00Z");
    assert_eq!(time_to_iso8601(86400), "1970-01-02T00:00:00Z");
    assert_eq!(time_to_iso8601(31535999), "1970-12-31T23:59:59Z");
    assert_eq!(time_to_iso8601(68169600), "1972-02-29T00:00:00Z");
}

#[test]
fn now_renders_in_the_documented_shapes() {
    let n = chrono_now();
    assert!(!n.is_empty());
    assert!(n.chars().all(|c| c.is_ascii_digit()));
    let t = chrono_iso8601_now();
    assert_eq!(t.len(), 20);
    assert!(t.ends_with('Z'));
    assert_eq!(&t[4..5], "-");
    assert_eq!(&t[10..11], "T");
}
