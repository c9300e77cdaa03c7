//! The note file format: a YAML-like frontmatter block between `---`
//! fences, followed by a markdown body.
//!
//! `parse_frontmatter` reads the block into a [`NoteFrontmatter`] — one
//! `key: value` pair per line, values optionally double-quoted with `\"`
//! escapes, tags as a bracketed comma-separated list — and hands back the
//! body. A document without a well-formed block, or whose block lacks an
//! `id` or a `createdAt`, parses as plain body. `serialize_frontmatter`
//! renders a block back; `slugify` derives a file-name slug from a title.

use vstd::prelude::*;
use crate::tree::{lemma_lex_total, lemma_lex_trans, lex_le};
use vstd::seq_lib::lemma_multiset_commutative;
use vstd::multiset::Multiset;
use crate::chartext::{
    append_vec, chars_of, eq_str, find_from, find_vec, is_space,
    lines_of, lower_char, split_lines, string_of, sub_vec, trim_spec, trim_vec
};

verus! {

/// The metadata block of one note.
pub struct NoteFrontmatter {
    pub id: String,
    pub title: String,
    pub dossier_id: Option<String>,
    pub client_id: Option<String>,
    pub folder_id: Option<String>,
    pub tags: Vec<String>,
    pub is_pinned: bool,
    pub color: Option<String>,
    pub created_at: String,
    pub updated_at: String,
}

/// A parsed note: the file's path, its metadata when present, its body.
pub struct NoteFileContent {
    pub path: String,
    pub frontmatter: Option<NoteFrontmatter>,
    pub body: String,
}

/// One note as the listing reports it.
pub struct NoteFileEntry {
    pub path: String,
    pub filename: String,
    pub folder: String,
    pub id: Option<String>,
    pub title: Option<String>,
    pub tags: Vec<String>,
    pub is_pinned: bool,
    pub color: Option<String>,
    pub dossier_id: Option<String>,
    pub client_id: Option<String>,
    pub created_at: Option<String>,
    pub updated_at: Option<String>,
    pub excerpt: String,
    pub word_count: usize,
}

/// The mathematical content of a frontmatter block.
pub struct FmState {
    pub id: Seq<char>,
    pub title: Seq<char>,
    pub dossier_id: Option<Seq<char>>,
    pub client_id: Option<Seq<char>>,
    pub folder_id: Option<Seq<char>>,
    pub tags: Seq<Seq<char>>,
    pub is_pinned: bool,
    pub color: Option<Seq<char>>,
    pub created_at: Seq<char>,
    pub updated_at: Seq<char>,
}

pub open spec fn opt_view(o: Option<String>) -> Option<Seq<char>> {
    match o {
        Option::Some(s) => Option::Some(s@),
        Option::None => Option::None,
    }
}

pub open spec fn fm_state_of(fm: NoteFrontmatter) -> FmState {
    FmState {
        id: fm.id@,
        title: fm.title@,
        dossier_id: opt_view(fm.dossier_id),
        client_id: opt_view(fm.client_id),
        folder_id: opt_view(fm.folder_id),
        tags: fm.tags@.map_values(|t: String| t@),
        is_pinned: fm.is_pinned,
        color: opt_view(fm.color),
        created_at: fm.created_at@,
        updated_at: fm.updated_at@,
    }
}

/// The state every parse starts from: an untitled, unpinned note.
pub open spec fn fm_init() -> FmState {
    FmState {
        id: Seq::empty(),
        title: "Sans titre"@,
        dossier_id: Option::None,
        client_id: Option::None,
        folder_id: Option::None,
        tags: Seq::empty(),
        is_pinned: false,
        color: Option::None,
        created_at: Seq::empty(),
        updated_at: Seq::empty(),
    }
}

/// `s` with every `\"` escape replaced by a quote, left to right.
pub open spec fn unescape(s: Seq<char>) -> Seq<char>
    decreases s.len(),
{
    if s.len() == 0 {
        s
    } else if s.len() >= 2 && s[0] == '\\' && s[1] == '"' {
        seq!['"'] + unescape(s.skip(2))
    } else {
        seq![s[0]] + unescape(s.skip(1))
    }
}

/// A quoted value loses its outer quotes and its `\"` escapes.
pub open spec fn unquote(v: Seq<char>) -> Seq<char> {
    if v.len() >= 2 && v[0] == '"' && v.last() == '"' {
        unescape(v.subrange(1, v.len() - 1))
    } else {
        v
    }
}

/// One tag: trimmed, with outer quotes stripped.
pub open spec fn clean_tag(s: Seq<char>) -> Seq<char> {
    let t = trim_spec(s);
    if t.len() >= 2 && t[0] == '"' && t.last() == '"' {
        t.subrange(1, t.len() - 1)
    } else {
        t
    }
}

/// The tags in a comma-separated list from position `start`, cleaned,
/// empties dropped.
pub open spec fn split_tags(s: Seq<char>, start: int) -> Seq<Seq<char>>
    decreases s.len() - start
        when 0 <= start <= s.len() via split_tags_decreases
{
    match find_from(s, seq![','], start) {
        Option::Some(i) => {
            let t = clean_tag(s.subrange(start, i));
            (if t.len() > 0 {
                seq![t]
            } else {
                Seq::empty()
            }) + split_tags(s, i + 1)
        },
        Option::None => {
            let t = clean_tag(s.skip(start));
            if t.len() > 0 {
                seq![t]
            } else {
                Seq::empty()
            }
        },
    }
}

#[via_fn]
proof fn split_tags_decreases(s: Seq<char>, start: int) {
    crate::chartext::lemma_find_from_bounds(s, seq![','], start);
}

/// How one `key: value` line updates the state. A line without a colon, or
/// with an unrecognized key, changes nothing; the optional fields are set
/// only by a non-empty value other than `null`; `tags` only by a
/// bracketed list.
pub open spec fn apply_line(st: FmState, line: Seq<char>) -> FmState {
    let t = trim_spec(line);
    match find_from(t, seq![':'], 0) {
        Option::None => st,
        Option::Some(c) => {
            let key = trim_spec(t.take(c));
            let v = unquote(trim_spec(t.skip(c + 1)));
            if key == "id"@ {
                FmState { id: v, ..st }
            } else if key == "title"@ {
                FmState { title: v, ..st }
            } else if key == "dossierID"@ {
                if v.len() > 0 && v != "null"@ {
                    FmState { dossier_id: Option::Some(v), ..st }
                } else {
                    st
                }
            } else if key == "clientID"@ {
                if v.len() > 0 && v != "null"@ {
                    FmState { client_id: Option::Some(v), ..st }
                } else {
                    st
                }
            } else if key == "folderID"@ {
                if v.len() > 0 && v != "null"@ {
                    FmState { folder_id: Option::Some(v), ..st }
                } else {
                    st
                }
            } else if key == "isPinned"@ {
                FmState { is_pinned: v == "true"@, ..st }
            } else if key == "color"@ {
                if v.len() > 0 && v != "null"@ {
                    FmState { color: Option::Some(v), ..st }
                } else {
                    st
                }
            } else if key == "createdAt"@ {
                FmState { created_at: v, ..st }
            } else if key == "updatedAt"@ {
                FmState { updated_at: v, ..st }
            } else if key == "tags"@ {
                if v.len() >= 2 && v[0] == '[' && v.last() == ']' {
                    FmState { tags: split_tags(v.subrange(1, v.len() - 1), 0), ..st }
                } else {
                    st
                }
            } else {
                st
            }
        },
    }
}

/// The state after folding the block's lines from index `idx` on.
pub open spec fn fm_after(lines: Seq<Seq<char>>, idx: int, st: FmState) -> FmState
    decreases lines.len() - idx
        when 0 <= idx <= lines.len()
{
    if idx >= lines.len() {
        st
    } else {
        fm_after(lines, idx + 1, apply_line(st, lines[idx]))
    }
}

/// `s` without its leading newlines.
pub open spec fn drop_leading_newlines(s: Seq<char>) -> Seq<char>
    decreases s.len(),
{
    if s.len() > 0 && s[0] == '\n' {
        drop_leading_newlines(s.drop_first())
    } else {
        s
    }
}

/// What parsing a document yields: the frontmatter state and the body.
/// The document must open (after leading whitespace) with a `---` fence
/// closed by a newline-`---` sequence; the block must provide `id` and
/// `createdAt`. Anything else parses as no frontmatter and the document
/// itself as body.
pub open spec fn parse_spec(content: Seq<char>) -> (Option<FmState>, Seq<char>) {
    let t = trim_start_owned(content);
    if !(t.len() >= 3 && t.subrange(0, 3) == seq!['-', '-', '-']) {
        (Option::None, content)
    } else {
        let after = t.skip(3);
        match find_from(after, seq!['\n', '-', '-', '-'], 0) {
            Option::None => (Option::None, content),
            Option::Some(e) => {
                let block = if e >= 1 {
                    after.subrange(1, e)
                } else {
                    Seq::empty()
                };
                let body = drop_leading_newlines(after.skip(e + 4));
                let st = fm_after(lines_of(block), 0, fm_init());
                if st.id.len() == 0 || st.created_at.len() == 0 {
                    (Option::None, content)
                } else {
                    (Option::Some(st), body)
                }
            },
        }
    }
}

/// `s` without its leading whitespace.
pub open spec fn trim_start_owned(s: Seq<char>) -> Seq<char>
    decreases s.len(),
{
    if s.len() > 0 && is_space(s[0]) {
        trim_start_owned(s.drop_first())
    } else {
        s
    }
}

fn unescape_exec(v: &Vec<char>) -> (r: Vec<char>)
    ensures
        r@ == unescape(v@),
{
    let mut out: Vec<char> = Vec::new();
    let mut i: usize = 0;
    proof {
        assert(v@.skip(0) =~= v@);
    }
    while i < v.len()
        invariant
            i <= v@.len(),
            unescape(v@) == out@ + unescape(v@.skip(i as int)),
        decreases v@.len() - i,
    {
        let ghost rest = v@.skip(i as int);
        if i + 1 < v.len() && v[i] == '\\' && v[i + 1] == '"' {
            out.push('"');
            proof {
                assert(rest[0] == v@[i as int] && rest[1] == v@[i + 1]);
                assert(rest.skip(2) =~= v@.skip(i + 2));
            }
            i = i + 2;
        } else {
            out.push(v[i]);
            proof {
                assert(rest[0] == v@[i as int]);
                if rest.len() >= 2 {
                    assert(rest[1] == v@[i + 1]);
                }
                assert(rest.skip(1) =~= v@.skip(i + 1));
            }
            i = i + 1;
        }
    }
    proof {
        assert(v@.skip(v@.len() as int) =~= Seq::<char>::empty());
        assert(out@ =~= unescape(v@));
    }
    out
}

fn unquote_exec(v: &Vec<char>) -> (r: Vec<char>)
    ensures
        r@ == unquote(v@),
{
    if v.len() >= 2 && v[0] == '"' && v[v.len() - 1] == '"' {
        let inner = sub_vec(v, 1, v.len() - 1);
        unescape_exec(&inner)
    } else {
        sub_vec(v, 0, v.len())
    }
}

fn clean_tag_exec(v: &Vec<char>) -> (r: Vec<char>)
    ensures
        r@ == clean_tag(v@),
{
    let t = trim_vec(v);
    if t.len() >= 2 && t[0] == '"' && t[t.len() - 1] == '"' {
        sub_vec(&t, 1, t.len() - 1)
    } else {
        t
    }
}

fn split_tags_exec(v: &Vec<char>, start: usize) -> (r: Vec<String>)
    requires
        start <= v@.len(),
    ensures
        r@.map_values(|t: String| t@) == split_tags(v@, start as int),
    decreases v@.len() - start,
{
    let comma: Vec<char> = vec![','];
    proof {
        assert(comma@ =~= seq![',']);
    }
    let vlen = v.len();
    match find_vec(v, &comma, start) {
        Some(i) => {
            proof {
                crate::chartext::lemma_find_from_bounds(v@, seq![','], start as int);
                assert(i + 1 <= vlen);
            }
            let piece = sub_vec(v, start, i);
            let t = clean_tag_exec(&piece);
            let mut rest = split_tags_exec(v, i + 1);
            let ghost rest_view = rest@;
            if t.len() > 0 {
                rest.insert(0, string_of(&t));
                proof {
                    assert(rest@.map_values(|x: String| x@) =~= seq![clean_tag(
                        v@.subrange(start as int, i as int),
                    )] + rest_view.map_values(|x: String| x@));
                }
            } else {
                proof {
                    assert(rest@.map_values(|x: String| x@) =~= split_tags(v@, start as int));
                }
            }
            rest
        },
        None => {
            let piece = sub_vec(v, start, v.len());
            proof {
                assert(piece@ =~= v@.skip(start as int));
            }
            let t = clean_tag_exec(&piece);
            let mut r: Vec<String> = Vec::new();
            if t.len() > 0 {
                r.push(string_of(&t));
            }
            proof {
                assert(r@.map_values(|x: String| x@) =~= split_tags(v@, start as int));
            }
            r
        },
    }
}

fn apply_line_exec(st: &mut NoteFrontmatter, line: &Vec<char>)
    ensures
        fm_state_of(*final(st)) == apply_line(fm_state_of(*old(st)), line@),
{
    let ghost st0 = fm_state_of(*old(st));
    let t = trim_vec(line);
    let colon: Vec<char> = vec![':'];
    proof {
        assert(colon@ =~= seq![':']);
    }
    let c = match find_vec(&t, &colon, 0) {
        None => {
            return ;
        },
        Some(c) => c,
    };
    let tlen = t.len();
    proof {
        crate::chartext::lemma_find_from_bounds(t@, seq![':'], 0);
        assert(c + 1 <= tlen);
        assert(t@.take(c as int) =~= t@.subrange(0, c as int));
        assert(t@.skip(c + 1) =~= t@.subrange(c + 1, t@.len() as int));
    }
    let key = trim_vec(&sub_vec(&t, 0, c));
    let vraw = trim_vec(&sub_vec(&t, c + 1, t.len()));
    let v = unquote_exec(&vraw);
    let set_opt = v.len() > 0 && !eq_str(&v, "null");
    if eq_str(&key, "id") {
        st.id = string_of(&v);
    } else if eq_str(&key, "title") {
        st.title = string_of(&v);
    } else if eq_str(&key, "dossierID") {
        if set_opt {
            st.dossier_id = Some(string_of(&v));
        }
    } else if eq_str(&key, "clientID") {
        if set_opt {
            st.client_id = Some(string_of(&v));
        }
    } else if eq_str(&key, "folderID") {
        if set_opt {
            st.folder_id = Some(string_of(&v));
        }
    } else if eq_str(&key, "isPinned") {
        st.is_pinned = eq_str(&v, "true");
    } else if eq_str(&key, "color") {
        if set_opt {
            st.color = Some(string_of(&v));
        }
    } else if eq_str(&key, "createdAt") {
        st.created_at = string_of(&v);
    } else if eq_str(&key, "updatedAt") {
        st.updated_at = string_of(&v);
    } else if eq_str(&key, "tags") {
        if v.len() >= 2 && v[0] == '[' && v[v.len() - 1] == ']' {
            let inner = sub_vec(&v, 1, v.len() - 1);
            st.tags = split_tags_exec(&inner, 0);
            proof {
                assert(inner@.skip(0) =~= inner@);
            }
        }
    }
}

/// Parses a note document into its frontmatter and body, per
/// [`parse_spec`].
pub fn parse_frontmatter(content: &str) -> (r: (Option<NoteFrontmatter>, String))
    ensures
        ({
            let sr = parse_spec(content@);
            &&& match r.0 {
                Option::Some(fm) => sr.0 matches Option::Some(st) && fm_state_of(fm) == st,
                Option::None => sr.0 is None,
            }
            &&& r.1@ == sr.1
        }),
{
    let cv = chars_of(content);
    proof {
        assert(cv@.skip(0) =~= cv@);
    }
    let mut a: usize = 0;
    while a < cv.len() && crate::chartext::is_space_char(cv[a])
        invariant
            a <= cv@.len(),
            cv@ == content@,
            trim_start_owned(cv@) == trim_start_owned(cv@.skip(a as int)),
        decreases cv@.len() - a,
    {
        proof {
            let t = cv@.skip(a as int);
            assert(t[0] == cv@[a as int]);
            assert(t.drop_first() =~= cv@.skip(a + 1));
        }
        a = a + 1;
    }
    proof {
        let t = cv@.skip(a as int);
        if t.len() > 0 {
            assert(t[0] == cv@[a as int]);
        }
        assert(trim_start_owned(cv@) == cv@.skip(a as int));
    }
    let trimmed = sub_vec(&cv, a, cv.len());
    proof {
        assert(trimmed@ =~= cv@.skip(a as int));
    }
    if !(trimmed.len() >= 3 && trimmed[0] == '-' && trimmed[1] == '-' && trimmed[2] == '-') {
        proof {
            if trimmed@.len() >= 3 {
                assert(trimmed@.subrange(0, 3) == seq!['-', '-', '-'] ==> (trimmed@[0] == '-'
                    && trimmed@[1] == '-' && trimmed@[2] == '-')) by {
                    if trimmed@.subrange(0, 3) == seq!['-', '-', '-'] {
                        assert(trimmed@.subrange(0, 3)[0] == '-');
                        assert(trimmed@.subrange(0, 3)[1] == '-');
                        assert(trimmed@.subrange(0, 3)[2] == '-');
                    }
                }
            }
        }
        return (None, content.to_owned());
    }
    proof {
        assert(trimmed@.subrange(0, 3) =~= seq!['-', '-', '-']);
    }
    let after = sub_vec(&trimmed, 3, trimmed.len());
    proof {
        assert(after@ =~= trimmed@.skip(3));
    }
    let fence: Vec<char> = vec!['\n', '-', '-', '-'];
    proof {
        assert(fence@ =~= seq!['\n', '-', '-', '-']);
    }
    let e = match find_vec(&after, &fence, 0) {
        None => {
            return (None, content.to_owned());
        },
        Some(e) => e,
    };
    proof {
        crate::chartext::lemma_find_from_bounds(after@, seq!['\n', '-', '-', '-'], 0);
    }
    let block: Vec<char> = if e >= 1 {
        sub_vec(&after, 1, e)
    } else {
        Vec::new()
    };
    proof {
        if e >= 1 {
            assert(block@ =~= after@.subrange(1, e as int));
        } else {
            assert(block@ =~= Seq::<char>::empty());
        }
    }
    let body0 = sub_vec(&after, e + 4, after.len());
    proof {
        assert(body0@ =~= after@.skip(e + 4));
        assert(body0@.skip(0) =~= body0@);
    }
    let mut b: usize = 0;
    while b < body0.len() && body0[b] == '\n'
        invariant
            b <= body0@.len(),
            drop_leading_newlines(body0@) == drop_leading_newlines(body0@.skip(b as int)),
        decreases body0@.len() - b,
    {
        proof {
            let t = body0@.skip(b as int);
            assert(t[0] == body0@[b as int]);
            assert(t.drop_first() =~= body0@.skip(b + 1));
        }
        b = b + 1;
    }
    proof {
        let t = body0@.skip(b as int);
        if t.len() > 0 {
            assert(t[0] == body0@[b as int]);
        }
        assert(drop_leading_newlines(body0@) == body0@.skip(b as int));
    }
    let body = sub_vec(&body0, b, body0.len());
    proof {
        assert(body@ =~= body0@.skip(b as int));
    }
    let lines = split_lines(&block);
    let ghost lv = block_line_views(lines@);
    let mut fm = NoteFrontmatter {
        id: String::new(),
        title: "Sans titre".to_owned(),
        dossier_id: None,
        client_id: None,
        folder_id: None,
        tags: Vec::new(),
        is_pinned: false,
        color: None,
        created_at: String::new(),
        updated_at: String::new(),
    };
    proof {
        assert(fm.tags@.map_values(|t: String| t@) =~= Seq::<Seq<char>>::empty());
        assert(fm_state_of(fm) == fm_init());
    }
    let mut li: usize = 0;
    while li < lines.len()
        invariant
            li <= lines@.len(),
            lv == lines@.map_values(|l: Vec<char>| l@),
            fm_after(lv, 0, fm_init()) == fm_after(lv, li as int, fm_state_of(fm)),
        decreases lines@.len() - li,
    {
        proof {
            assert(lv[li as int] == lines@[li as int]@);
        }
        apply_line_exec(&mut fm, &lines[li]);
        li = li + 1;
    }
    if fm.id.as_str().is_empty() || fm.created_at.as_str().is_empty() {
        return (None, content.to_owned());
    }
    (Some(fm), string_of(&body))
}

pub open spec fn block_line_views(ls: Seq<Vec<char>>) -> Seq<Seq<char>> {
    ls.map_values(|l: Vec<char>| l@)
}


/// `s` with every quote escaped as `\\"`.
pub open spec fn escape_quotes(s: Seq<char>) -> Seq<char>
    decreases s.len(),
{
    if s.len() == 0 {
        s
    } else {
        (if s[0] == '"' {
            seq!['\\', '"']
        } else {
            seq![s[0]]
        }) + escape_quotes(s.skip(1))
    }
}

/// The serialized tag list from index `i` on: each tag quoted, separated
/// by a comma and a space.
pub open spec fn tags_join(tags: Seq<Seq<char>>, i: int) -> Seq<char>
    decreases tags.len() - i
        when 0 <= i <= tags.len()
{
    if i >= tags.len() {
        Seq::empty()
    } else if i == tags.len() - 1 {
        seq!['"'] + tags[i] + seq!['"']
    } else {
        seq!['"'] + tags[i] + seq!['"'] + seq![',', ' '] + tags_join(tags, i + 1)
    }
}

/// An optional serialized line: `key: "value"` and a newline, or nothing.
pub open spec fn opt_line(key: Seq<char>, v: Option<Seq<char>>) -> Seq<char> {
    match v {
        Option::Some(x) => key + seq![':', ' ', '"'] + x + seq!['"', '\n'],
        Option::None => Seq::empty(),
    }
}

/// The serialized frontmatter block: the fields between `---` fences, one
/// per line, the title's quotes escaped, absent optional fields omitted.
pub open spec fn serialize_spec(st: FmState) -> Seq<char> {
    "---\n"@ + "id: \""@ + st.id + "\"\n"@ + "title: \""@ + escape_quotes(st.title) + "\"\n"@
        + opt_line("dossierID"@, st.dossier_id) + opt_line("clientID"@, st.client_id) + opt_line(
        "folderID"@,
        st.folder_id,
    ) + "tags: ["@ + tags_join(st.tags, 0) + "]\n"@ + "isPinned: "@ + (if st.is_pinned {
        "true"@
    } else {
        "false"@
    }) + "\n"@ + opt_line("color"@, st.color) + "createdAt: \""@ + st.created_at + "\"\n"@
        + "updatedAt: \""@ + st.updated_at + "\"\n"@ + "---"@
}

fn escape_quotes_exec(v: &Vec<char>) -> (r: Vec<char>)
    ensures
        r@ == escape_quotes(v@),
{
    let mut out: Vec<char> = Vec::new();
    let mut i: usize = 0;
    proof {
        assert(v@.skip(0) =~= v@);
    }
    while i < v.len()
        invariant
            i <= v@.len(),
            escape_quotes(v@) == out@ + escape_quotes(v@.skip(i as int)),
        decreases v@.len() - i,
    {
        proof {
            let rest = v@.skip(i as int);
            assert(rest[0] == v@[i as int]);
            assert(rest.skip(1) =~= v@.skip(i + 1));
        }
        if v[i] == '"' {
            out.push('\\');
            out.push('"');
        } else {
            out.push(v[i]);
        }
        i = i + 1;
    }
    proof {
        assert(v@.skip(v@.len() as int) =~= Seq::<char>::empty());
        assert(out@ =~= escape_quotes(v@));
    }
    out
}

fn tags_join_exec(tags: &Vec<String>, i: usize) -> (r: Vec<char>)
    requires
        i <= tags@.len(),
    ensures
        r@ == tags_join(tags@.map_values(|t: String| t@), i as int),
    decreases tags@.len() - i,
{
    let ghost tv = tags@.map_values(|t: String| t@);
    if i >= tags.len() {
        let r: Vec<char> = Vec::new();
        proof {
            assert(r@ =~= tags_join(tv, i as int));
        }
        return r;
    }
    let mut out: Vec<char> = Vec::new();
    out.push('"');
    append_vec(&mut out, &chars_of(tags[i].as_str()));
    out.push('"');
    if i == tags.len() - 1 {
        proof {
            assert(tv[i as int] == tags@[i as int]@);
            assert(out@ =~= tags_join(tv, i as int));
        }
        out
    } else {
        out.push(',');
        out.push(' ');
        let rest = tags_join_exec(tags, i + 1);
        append_vec(&mut out, &rest);
        proof {
            assert(tv[i as int] == tags@[i as int]@);
            assert(out@ =~= tags_join(tv, i as int));
        }
        out
    }
}

fn push_opt_line(out: &mut Vec<char>, key: &str, v: &Option<String>)
    ensures
        final(out)@ == old(out)@ + opt_line(key@, opt_view(*v)),
{
    let ghost start = out@;
    match v {
        Some(x) => {
            append_vec(out, &chars_of(key));
            out.push(':');
            out.push(' ');
            out.push('"');
            append_vec(out, &chars_of(x.as_str()));
            out.push('"');
            out.push('\n');
            proof {
                assert(out@ =~= start + opt_line(key@, opt_view(*v)));
            }
        },
        None => {
            proof {
                assert(out@ =~= start + opt_line(key@, opt_view(*v)));
            }
        },
    }
}

/// Renders a frontmatter block, per [`serialize_spec`].
pub fn serialize_frontmatter(fm: &NoteFrontmatter) -> (r: String)
    ensures
        r@ == serialize_spec(fm_state_of(*fm)),
{
    let mut out: Vec<char> = Vec::new();
    append_vec(&mut out, &chars_of("---\n"));
    append_vec(&mut out, &chars_of("id: \""));
    append_vec(&mut out, &chars_of(fm.id.as_str()));
    append_vec(&mut out, &chars_of("\"\n"));
    append_vec(&mut out, &chars_of("title: \""));
    let esc = escape_quotes_exec(&chars_of(fm.title.as_str()));
    append_vec(&mut out, &esc);
    append_vec(&mut out, &chars_of("\"\n"));
    push_opt_line(&mut out, "dossierID", &fm.dossier_id);
    push_opt_line(&mut out, "clientID", &fm.client_id);
    push_opt_line(&mut out, "folderID", &fm.folder_id);
    append_vec(&mut out, &chars_of("tags: ["));
    let tj = tags_join_exec(&fm.tags, 0);
    append_vec(&mut out, &tj);
    append_vec(&mut out, &chars_of("]\n"));
    append_vec(&mut out, &chars_of("isPinned: "));
    if fm.is_pinned {
        append_vec(&mut out, &chars_of("true"));
    } else {
        append_vec(&mut out, &chars_of("false"));
    }
    append_vec(&mut out, &chars_of("\n"));
    push_opt_line(&mut out, "color", &fm.color);
    append_vec(&mut out, &chars_of("createdAt: \""));
    append_vec(&mut out, &chars_of(fm.created_at.as_str()));
    append_vec(&mut out, &chars_of("\"\n"));
    append_vec(&mut out, &chars_of("updatedAt: \""));
    append_vec(&mut out, &chars_of(fm.updated_at.as_str()));
    append_vec(&mut out, &chars_of("\"\n"));
    append_vec(&mut out, &chars_of("---"));
    proof {
        assert(out@ =~= serialize_spec(fm_state_of(*fm)));
    }
    string_of(&out)
}


/// A lowercase ASCII letter or digit.
pub open spec fn is_lower_alnum(c: char) -> bool {
    ('a' <= c && c <= 'z') || ('0' <= c && c <= '9')
}

/// How one title character maps into a slug: ASCII alphanumerics are
/// lower-cased, everything else becomes a dash.
pub open spec fn slug_char(c: char) -> char {
    if is_lower_alnum(lower_char(c)) {
        lower_char(c)
    } else {
        '-'
    }
}

/// The mapped slug with runs of dashes compacted, from index `i`, where
/// `prev` says whether a dash was just kept.
pub open spec fn compact_from(s: Seq<char>, i: int, prev: bool) -> Seq<char>
    decreases s.len() - i
        when 0 <= i <= s.len()
{
    if i >= s.len() {
        Seq::empty()
    } else if s[i] == '-' && prev {
        compact_from(s, i + 1, true)
    } else {
        seq![s[i]] + compact_from(s, i + 1, s[i] == '-')
    }
}

pub open spec fn dash_trim_start(s: Seq<char>) -> Seq<char>
    decreases s.len(),
{
    if s.len() > 0 && s[0] == '-' {
        dash_trim_start(s.drop_first())
    } else {
        s
    }
}

pub open spec fn dash_trim_end(s: Seq<char>) -> Seq<char>
    decreases s.len(),
{
    if s.len() > 0 && s.last() == '-' {
        dash_trim_end(s.drop_last())
    } else {
        s
    }
}

/// The file-name slug of a title: characters mapped by [`slug_char`],
/// dash runs compacted, outer dashes trimmed, a fallback name for an
/// empty result, at most 60 characters.
pub open spec fn slug_of(title: Seq<char>) -> Seq<char> {
    let m = compact_from(title.map_values(|c: char| slug_char(c)), 0, false);
    let t = dash_trim_end(dash_trim_start(m));
    if t.len() == 0 {
        "sans-titre"@
    } else if t.len() > 60 {
        t.take(60)
    } else {
        t
    }
}

/// Derives a file-name slug from a title, per [`slug_of`].
pub fn slugify(title: &str) -> (r: String)
    ensures
        r@ == slug_of(title@),
{
    let tv = chars_of(title);
    let mut mapped: Vec<char> = Vec::new();
    let mut i: usize = 0;
    while i < tv.len()
        invariant
            i <= tv@.len(),
            mapped@ == tv@.take(i as int).map_values(|c: char| slug_char(c)),
        decreases tv@.len() - i,
    {
        let c = crate::chartext::to_lower(tv[i]);
        let u = c as u32;
        let mc = if (97 <= u && u <= 122) || (48 <= u && u <= 57) {
            c
        } else {
            '-'
        };
        mapped.push(mc);
        proof {
            assert(mapped@ =~= tv@.take(i + 1).map_values(|ch: char| slug_char(ch)));
        }
        i = i + 1;
    }
    proof {
        assert(tv@.take(tv@.len() as int) =~= tv@);
    }
    let ghost mfull = tv@.map_values(|c: char| slug_char(c));
    let mut compacted: Vec<char> = Vec::new();
    let mut prev = false;
    let mut j: usize = 0;
    proof {
        assert(mapped@.skip(0) =~= mapped@);
    }
    while j < mapped.len()
        invariant
            j <= mapped@.len(),
            mapped@ == mfull,
            compact_from(mfull, 0, false) == compacted@ + compact_from(mfull, j as int, prev),
        decreases mapped@.len() - j,
    {
        if mapped[j] == '-' && prev {
        } else {
            compacted.push(mapped[j]);
            prev = mapped[j] == '-';
        }
        j = j + 1;
    }
    let ghost cfull = compact_from(mfull, 0, false);
    proof {
        assert(compacted@ =~= cfull);
        assert(cfull.skip(0) =~= cfull);
    }
    let mut a: usize = 0;
    while a < compacted.len() && compacted[a] == '-'
        invariant
            a <= compacted@.len(),
            compacted@ == cfull,
            dash_trim_start(cfull) == dash_trim_start(cfull.skip(a as int)),
        decreases compacted@.len() - a,
    {
        proof {
            let t = cfull.skip(a as int);
            assert(t[0] == cfull[a as int]);
            assert(t.drop_first() =~= cfull.skip(a + 1));
        }
        a = a + 1;
    }
    let ghost dstart = dash_trim_start(cfull);
    proof {
        let t = cfull.skip(a as int);
        if t.len() > 0 {
            assert(t[0] == cfull[a as int]);
        }
        assert(dstart == cfull.skip(a as int));
        assert(dstart.take(dstart.len() as int) =~= dstart);
    }
    let mut b: usize = compacted.len();
    while b > a && compacted[b - 1] == '-'
        invariant
            a <= b <= compacted@.len(),
            compacted@ == cfull,
            dstart == cfull.skip(a as int),
            dash_trim_end(dstart) == dash_trim_end(dstart.take(b - a)),
        decreases b,
    {
        proof {
            let t = dstart.take(b - a);
            assert(t.last() == cfull[b - 1]);
            assert(t.drop_last() =~= dstart.take(b - 1 - a));
        }
        b = b - 1;
    }
    proof {
        let t = dstart.take(b - a);
        if t.len() > 0 {
            assert(t.last() == cfull[b - 1]);
        }
        assert(dash_trim_end(dstart) == t);
        assert(compacted@.subrange(a as int, b as int) =~= dstart.take(b - a));
    }
    let core = sub_vec(&compacted, a, b);
    if core.len() == 0 {
        let r = "sans-titre".to_owned();
        return r;
    }
    if core.len() > 60 {
        let cut = sub_vec(&core, 0, 60);
        proof {
            assert(cut@ =~= dash_trim_end(dstart).take(60));
        }
        return string_of(&cut);
    }
    string_of(&core)
}

/// A lowercase hexadecimal digit.
pub open spec fn is_lower_hex(c: char) -> bool {
    ('0' <= c && c <= '9') || ('a' <= c && c <= 'f')
}

/// Relies on `uuid::Uuid::new_v4` rendered through `Display`: the
/// hyphenated form — 36 characters, hyphens at positions 8, 13, 18 and
/// 23, lowercase hexadecimal digits elsewhere. The value itself is
/// random; nothing further is assumed of it.
#[verifier::external_body]
pub fn fresh_note_id() -> (r: String)
    ensures
        r@.len() == 36,
        r@[8] == '-' && r@[13] == '-' && r@[18] == '-' && r@[23] == '-',
        forall|i: int|
            0 <= i < 36 && i != 8 && i != 13 && i != 18 && i != 23 ==> is_lower_hex(
                #[trigger] r@[i],
            ),
{
    uuid::Uuid::new_v4().to_string()
}

/// The file name of a new note: the title's slug, a dash, the first eight
/// characters of the note id, and the markdown extension.
pub fn note_filename(title: &str, note_id: &str) -> (r: String)
    requires
        note_id@.len() >= 8,
    ensures
        r@ == slug_of(title@) + seq!['-'] + note_id@.take(8) + ".md"@,
{
    let slug = slugify(title);
    let idv = chars_of(note_id);
    let short = sub_vec(&idv, 0, 8);
    let mut out: Vec<char> = Vec::new();
    append_vec(&mut out, &chars_of(slug.as_str()));
    out.push('-');
    append_vec(&mut out, &short);
    append_vec(&mut out, &chars_of(".md"));
    proof {
        assert(out@ =~= slug_of(title@) + seq!['-'] + note_id@.take(8) + ".md"@);
    }
    string_of(&out)
}

/// The full document for a frontmatter block and a body: the block, then
/// a blank line and the body when there is one, with a final newline.
pub open spec fn composed(block: Seq<char>, body: Seq<char>) -> Seq<char> {
    if body.len() == 0 {
        block + seq!['\n']
    } else {
        block + seq!['\n', '\n'] + body + seq!['\n']
    }
}

/// Renders a whole note document, per [`composed`] over
/// [`serialize_spec`].
pub fn compose_note_content(fm: &NoteFrontmatter, body: &str) -> (r: String)
    ensures
        r@ == composed(serialize_spec(fm_state_of(*fm)), body@),
{
    let block = serialize_frontmatter(fm);
    let mut out: Vec<char> = Vec::new();
    append_vec(&mut out, &chars_of(block.as_str()));
    if body.unicode_len() == 0 {
        out.push('\n');
        proof {
            assert(out@ =~= composed(serialize_spec(fm_state_of(*fm)), body@));
        }
    } else {
        out.push('\n');
        out.push('\n');
        append_vec(&mut out, &chars_of(body));
        out.push('\n');
        proof {
            assert(out@ =~= composed(serialize_spec(fm_state_of(*fm)), body@));
        }
    }
    string_of(&out)
}

/// The frontmatter of a freshly created note.
pub open spec fn new_note_state(
    title: Seq<char>,
    dossier_id: Option<Seq<char>>,
    client_id: Option<Seq<char>>,
    tags: Seq<Seq<char>>,
    note_id: Seq<char>,
    now: Seq<char>,
) -> FmState {
    FmState {
        id: note_id,
        title: title,
        dossier_id: dossier_id,
        client_id: client_id,
        folder_id: Option::None,
        tags: tags,
        is_pinned: false,
        color: Option::None,
        created_at: now,
        updated_at: now,
    }
}

/// Builds a new note: its file name and its full document, from the
/// caller's title, body and links, a fresh note id and the current
/// timestamp.
pub fn create_note_document(
    title: &str,
    content: &str,
    dossier_id: &Option<String>,
    client_id: &Option<String>,
    tags: &Vec<String>,
    note_id: &str,
    now: &str,
) -> (r: (String, String))
    requires
        note_id@.len() >= 8,
    ensures
        r.0@ == slug_of(title@) + seq!['-'] + note_id@.take(8) + ".md"@,
        r.1@ == composed(
            serialize_spec(
                new_note_state(
                    title@,
                    opt_view(*dossier_id),
                    opt_view(*client_id),
                    tags@.map_values(|t: String| t@),
                    note_id@,
                    now@,
                ),
            ),
            content@,
        ),
{
    let filename = note_filename(title, note_id);
    let fm = NoteFrontmatter {
        id: note_id.to_owned(),
        title: title.to_owned(),
        dossier_id: clone_opt(dossier_id),
        client_id: clone_opt(client_id),
        folder_id: None,
        tags: clone_strings(tags),
        is_pinned: false,
        color: None,
        created_at: now.to_owned(),
        updated_at: now.to_owned(),
    };
    let full = compose_note_content(&fm, content);
    (filename, full)
}

fn clone_opt(o: &Option<String>) -> (r: Option<String>)
    ensures
        opt_view(r) == opt_view(*o),
{
    match o {
        Some(s) => Some(s.clone()),
        None => None,
    }
}

fn clone_strings(v: &Vec<String>) -> (r: Vec<String>)
    ensures
        r@.map_values(|t: String| t@) == v@.map_values(|t: String| t@),
{
    let mut r: Vec<String> = Vec::new();
    let mut i: usize = 0;
    while i < v.len()
        invariant
            i <= v@.len(),
            r@.len() == i,
            forall|k: int| 0 <= k < i ==> (#[trigger] r@[k])@ == v@[k]@,
        decreases v@.len() - i,
    {
        r.push(v[i].clone());
        i = i + 1;
    }
    proof {
        assert(r@.map_values(|t: String| t@) =~= v@.map_values(|t: String| t@));
    }
    r
}

/// Rewrites a note for saving: the frontmatter keeps every field but
/// `updatedAt`, which becomes the current timestamp, and the document is
/// recomposed around the new body.
pub fn updated_note_content(fm: &NoteFrontmatter, body: &str, now: &str) -> (r: (
    NoteFrontmatter,
    String,
))
    ensures
        fm_state_of(r.0) == (FmState { updated_at: now@, ..fm_state_of(*fm) }),
        r.1@ == composed(
            serialize_spec((FmState { updated_at: now@, ..fm_state_of(*fm) })),
            body@,
        ),
{
    let fm2 = NoteFrontmatter {
        id: fm.id.clone(),
        title: fm.title.clone(),
        dossier_id: clone_opt(&fm.dossier_id),
        client_id: clone_opt(&fm.client_id),
        folder_id: clone_opt(&fm.folder_id),
        tags: clone_strings(&fm.tags),
        is_pinned: fm.is_pinned,
        color: clone_opt(&fm.color),
        created_at: fm.created_at.clone(),
        updated_at: now.to_owned(),
    };
    let full = compose_note_content(&fm2, body);
    (fm2, full)
}

/// Parses a note read from disk into its path, frontmatter and body.
pub fn read_goldocab_note(path: &str, content: &str) -> (r: NoteFileContent)
    ensures
        r.path@ == path@,
        ({
            let sr = parse_spec(content@);
            &&& match r.frontmatter {
                Option::Some(fm) => sr.0 matches Option::Some(st) && fm_state_of(fm) == st,
                Option::None => sr.0 is None,
            }
            &&& r.body@ == sr.1
        }),
{
    let (frontmatter, body) = parse_frontmatter(content);
    NoteFileContent { path: path.to_owned(), frontmatter, body }
}


/// One note file as observed on disk, before parsing.
pub struct NoteSource {
    pub path: String,
    pub filename: String,
    pub folder: String,
    pub content: String,
}

/// The number of whitespace-separated words counted from index `i`, where
/// `in_word` says whether a word was already entered.
pub open spec fn count_words(s: Seq<char>, i: int, in_word: bool) -> int
    decreases s.len() - i
        when 0 <= i <= s.len()
{
    if i >= s.len() {
        0
    } else {
        (if !is_space(s[i]) && !in_word {
            1int
        } else {
            0int
        }) + count_words(s, i + 1, !is_space(s[i]))
    }
}

pub open spec fn word_count_of(s: Seq<char>) -> int {
    count_words(s, 0, false)
}

fn word_count_exec(v: &Vec<char>) -> (r: usize)
    ensures
        r as int == word_count_of(v@),
{
    let mut acc: usize = 0;
    let mut in_word = false;
    let mut i: usize = 0;
    while i < v.len()
        invariant
            i <= v@.len(),
            acc <= i,
            acc + count_words(v@, i as int, in_word) == word_count_of(v@),
        decreases v@.len() - i,
    {
        let sp = crate::chartext::is_space_char(v[i]);
        if !sp && !in_word {
            acc = acc + 1;
        }
        in_word = !sp;
        i = i + 1;
    }
    acc
}

/// How one observed note file determines one listing entry: the metadata
/// fields from its parsed frontmatter when it has one, the excerpt as the
/// body's first 200 characters, the word count over the body.
pub open spec fn entry_from(src: NoteSource, e: NoteFileEntry) -> bool {
    let sr = parse_spec(src.content@);
    &&& e.path@ == src.path@
    &&& e.filename@ == src.filename@
    &&& e.folder@ == src.folder@
    &&& match sr.0 {
        Option::Some(st) => {
            &&& opt_view(e.id) == Option::Some(st.id)
            &&& opt_view(e.title) == Option::Some(st.title)
            &&& e.tags@.map_values(|t: String| t@) == st.tags
            &&& e.is_pinned == st.is_pinned
            &&& opt_view(e.color) == st.color
            &&& opt_view(e.dossier_id) == st.dossier_id
            &&& opt_view(e.client_id) == st.client_id
            &&& opt_view(e.created_at) == Option::Some(st.created_at)
            &&& opt_view(e.updated_at) == Option::Some(st.updated_at)
        },
        Option::None => {
            &&& e.id is None
            &&& e.title is None
            &&& e.tags@.len() == 0
            &&& e.is_pinned == false
            &&& e.color is None
            &&& e.dossier_id is None
            &&& e.client_id is None
            &&& e.created_at is None
            &&& e.updated_at is None
        },
    }
    &&& e.excerpt@ == sr.1.take(
        if sr.1.len() < 200 {
            sr.1.len() as int
        } else {
            200
        },
    )
    &&& e.word_count as int == word_count_of(sr.1)
}

/// Builds one listing entry from one observed note file, per
/// [`entry_from`].
pub fn build_note_entry(src: &NoteSource) -> (r: NoteFileEntry)
    ensures
        entry_from(*src, r),
{
    let (fm, body) = parse_frontmatter(src.content.as_str());
    let bv = chars_of(body.as_str());
    let cut = if bv.len() < 200 {
        bv.len()
    } else {
        200
    };
    let excerpt = string_of(&sub_vec(&bv, 0, cut));
    let word_count = word_count_exec(&bv);
    match fm {
        Some(f) => NoteFileEntry {
            path: src.path.clone(),
            filename: src.filename.clone(),
            folder: src.folder.clone(),
            id: Some(f.id.clone()),
            title: Some(f.title.clone()),
            tags: clone_strings(&f.tags),
            is_pinned: f.is_pinned,
            color: clone_opt(&f.color),
            dossier_id: clone_opt(&f.dossier_id),
            client_id: clone_opt(&f.client_id),
            created_at: Some(f.created_at.clone()),
            updated_at: Some(f.updated_at.clone()),
            excerpt,
            word_count,
        },
        None => NoteFileEntry {
            path: src.path.clone(),
            filename: src.filename.clone(),
            folder: src.folder.clone(),
            id: None,
            title: None,
            tags: Vec::new(),
            is_pinned: false,
            color: None,
            dossier_id: None,
            client_id: None,
            created_at: None,
            updated_at: None,
            excerpt,
            word_count,
        },
    }
}

/// The key the listing is ordered by: the update timestamp, an absent one
/// reading as empty.
pub open spec fn upd_key(e: NoteFileEntry) -> Seq<char> {
    match e.updated_at {
        Option::Some(u) => u@,
        Option::None => Seq::empty(),
    }
}

/// Listing order: most recently updated first.
pub open spec fn entry_le(a: NoteFileEntry, b: NoteFileEntry) -> bool {
    lex_le(upd_key(b), upd_key(a))
}

pub open spec fn sorted_entries(s: Seq<NoteFileEntry>) -> bool {
    forall|i: int, j: int| 0 <= i < j < s.len() ==> entry_le(#[trigger] s[i], #[trigger] s[j])
}

fn le_entries(a: &NoteFileEntry, b: &NoteFileEntry) -> (r: bool)
    ensures
        r == entry_le(*a, *b),
{
    let av: Vec<char> = match &a.updated_at {
        Some(u) => chars_of(u.as_str()),
        None => Vec::new(),
    };
    let bv: Vec<char> = match &b.updated_at {
        Some(u) => chars_of(u.as_str()),
        None => Vec::new(),
    };
    lex_le_plain(&bv, &av)
}

/// Plain lexicographic comparison by Unicode scalar value.
fn lex_le_plain(x: &Vec<char>, y: &Vec<char>) -> (r: bool)
    ensures
        r == lex_le(x@, y@),
{
    let ghost xs = x@;
    let ghost ys = y@;
    proof {
        assert(xs.skip(0) =~= xs);
        assert(ys.skip(0) =~= ys);
    }
    let mut i: usize = 0;
    while i < x.len() && i < y.len() && (x[i] as u32) == (y[i] as u32)
        invariant
            xs == x@,
            ys == y@,
            i <= xs.len(),
            i <= ys.len(),
            lex_le(xs, ys) == lex_le(xs.skip(i as int), ys.skip(i as int)),
        decreases xs.len() - i,
    {
        proof {
            let sx = xs.skip(i as int);
            let sy = ys.skip(i as int);
            assert(sx[0] == xs[i as int]);
            assert(sy[0] == ys[i as int]);
            assert(sx.drop_first() =~= xs.skip(i + 1));
            assert(sy.drop_first() =~= ys.skip(i + 1));
        }
        i = i + 1;
    }
    proof {
        let sx = xs.skip(i as int);
        let sy = ys.skip(i as int);
        if i < xs.len() && i < ys.len() {
            assert(sx[0] == xs[i as int]);
            assert(sy[0] == ys[i as int]);
        } else if i < xs.len() {
            assert(sx.len() > 0 && sy.len() == 0);
        } else {
            assert(sx.len() == 0);
        }
    }
    if i >= x.len() {
        true
    } else if i >= y.len() {
        false
    } else {
        (x[i] as u32) < (y[i] as u32)
    }
}

proof fn lemma_entry_le_total(a: NoteFileEntry, b: NoteFileEntry)
    ensures
        entry_le(a, b) || entry_le(b, a),
{
    lemma_lex_total(upd_key(b), upd_key(a));
}

proof fn lemma_entry_le_trans(a: NoteFileEntry, b: NoteFileEntry, c: NoteFileEntry)
    requires
        entry_le(a, b),
        entry_le(b, c),
    ensures
        entry_le(a, c),
{
    lemma_lex_trans(upd_key(c), upd_key(b), upd_key(a));
}

/// Orders listing entries most recently updated first; the result holds
/// exactly the given entries.
pub fn sort_note_entries(entries: &mut Vec<NoteFileEntry>)
    ensures
        sorted_entries(final(entries)@),
        final(entries)@.to_multiset() == old(entries)@.to_multiset(),
{
    let ghost input = old(entries)@;
    let mut out: Vec<NoteFileEntry> = Vec::new();
    proof {
        broadcast use vstd::seq_lib::group_to_multiset_ensures;

        assert(out@.to_multiset() =~= Multiset::<NoteFileEntry>::empty());
        assert(out@.to_multiset().add(entries@.to_multiset()) =~= input.to_multiset());
    }
    loop
        invariant
            input == old(entries)@,
            sorted_entries(out@),
            out@.to_multiset().add(entries@.to_multiset()) == input.to_multiset(),
        decreases entries@.len(),
    {
        let ghost pre = entries@;
        let popped = entries.pop();
        match popped {
            None => {
                proof {
                    broadcast use vstd::seq_lib::group_to_multiset_ensures;

                    assert(entries@.to_multiset() =~= Multiset::<NoteFileEntry>::empty());
                    assert(out@.to_multiset().add(Multiset::<NoteFileEntry>::empty())
                        =~= out@.to_multiset());
                    assert(out@.to_multiset() == input.to_multiset());
                }
                let ghost sorted_view = out@;
                entries.append(&mut out);
                proof {
                    assert(entries@ =~= sorted_view);
                }
                return ;
            },
            Some(x) => {
                proof {
                    broadcast use vstd::seq_lib::group_to_multiset_ensures;

                    assert(pre =~= entries@.push(x));
                    assert(pre.to_multiset() == entries@.to_multiset().insert(x));
                }
                let ghost before = out@;
                let mut j: usize = 0;
                while j < out.len() && le_entries(&out[j], &x)
                    invariant
                        out@ == before,
                        j <= out@.len(),
                        forall|k: int| 0 <= k < j ==> entry_le(#[trigger] out@[k], x),
                    decreases out@.len() - j,
                {
                    j = j + 1;
                }
                proof {
                    if j < out@.len() {
                        lemma_entry_le_total(out@[j as int], x);
                    }
                }
                out.insert(j, x);
                proof {
                    broadcast use vstd::seq_lib::group_to_multiset_ensures;

                    assert forall|p: int, q: int| 0 <= p < q < out@.len() implies entry_le(
                        #[trigger] out@[p],
                        #[trigger] out@[q],
                    ) by {
                        let jj = j as int;
                        if p < jj && q == jj {
                        } else if p == jj && q > jj {
                            assert(before[q - 1] == out@[q]);
                            if q - 1 > jj {
                                lemma_entry_le_trans(x, before[jj], before[q - 1]);
                            }
                        } else if p < jj && q > jj {
                            assert(out@[p] == before[p] && out@[q] == before[q - 1]);
                        } else if p > jj && q > jj {
                            assert(out@[p] == before[p - 1] && out@[q] == before[q - 1]);
                        }
                    }
                    let jj = j as int;
                    assert(out@ =~= before.take(jj) + seq![x] + before.skip(jj));
                    lemma_multiset_commutative(before.take(jj) + seq![x], before.skip(jj));
                    lemma_multiset_commutative(before.take(jj), seq![x]);
                    assert(seq![x] =~= Seq::<NoteFileEntry>::empty().push(x));
                    assert(seq![x].to_multiset() =~= Multiset::<NoteFileEntry>::empty().insert(
                        x,
                    ));
                    assert(before =~= before.take(jj) + before.skip(jj));
                    lemma_multiset_commutative(before.take(jj), before.skip(jj));
                    assert(out@.to_multiset() =~= before.to_multiset().insert(x));
                    assert(before.to_multiset().add(pre.to_multiset()) == input.to_multiset());
                    assert(out@.to_multiset().add(entries@.to_multiset())
                        =~= input.to_multiset());
                }
            },
        }
    }
}

/// One entry built from each observed note file, in order.
pub open spec fn entries_built(fs: Seq<NoteSource>, us: Seq<NoteFileEntry>) -> bool {
    &&& us.len() == fs.len()
    &&& forall|j: int| 0 <= j < fs.len() ==> entry_from(#[trigger] fs[j], us[j])
}

/// Lists the observed note files: one entry per file, most recently
/// updated first.
pub fn list_goldocab_notes(files: &Vec<NoteSource>) -> (r: Vec<NoteFileEntry>)
    ensures
        exists|us: Seq<NoteFileEntry>|
            {
                &&& #[trigger] entries_built(files@, us)
                &&& r@.to_multiset() == us.to_multiset()
                &&& sorted_entries(r@)
            },
{
    let mut us: Vec<NoteFileEntry> = Vec::new();
    let mut i: usize = 0;
    while i < files.len()
        invariant
            i <= files@.len(),
            us@.len() == i,
            forall|j: int| 0 <= j < i ==> entry_from(#[trigger] files@[j], us@[j]),
        decreases files@.len() - i,
    {
        let e = build_note_entry(&files[i]);
        us.push(e);
        i = i + 1;
    }
    let ghost us_view = us@;
    sort_note_entries(&mut us);
    proof {
        assert(entries_built(files@, us_view));
        assert(us@.to_multiset() == us_view.to_multiset());
        assert(sorted_entries(us@));
    }
    us
}

} // verus!
