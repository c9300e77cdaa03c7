//! The project-wide text search engine.
//!
//! `search_in_project` walks an observed directory tree depth-first under
//! the same skip policy as the tree enumerator, selects files by the
//! caller-supplied extension list, and matches the query case-insensitively
//! against each line. Matching is non-overlapping: after each match the
//! scan resumes immediately past the matched span. Every hit carries the
//! 1-based line and character column, the verbatim matched text, and a
//! context window of up to 30 characters on each side with an ellipsis
//! marker on a truncated side. The result is capped at the first
//! [`SEARCH_CAP`] hits in discovery order.
//!
//! A file that cannot be read or decoded is silently skipped; a directory
//! that cannot be read fails the whole search — a deliberate asymmetry.

use vstd::prelude::*;
use crate::chartext::{
    all_space, chars_of, eq_vecs, find_from, find_vec, fold_chars, fold_vec, is_space_char,
    lemma_find_from_bounds, lines_of, match_at, split_lines, string_of, sub_vec, trim_spec,
    trim_vec,
};
use crate::common::{ext_of, extension_of};
use crate::errs::FsError;
use crate::guard::seq_views;
use crate::tree::{hidden_or_ignored, name_skipped, RawEntry, RawListing, RootDir};

verus! {

/// The most hits a search may return.
pub const SEARCH_CAP: usize = 500;

/// One text match.
pub struct SearchHit {
    pub document_path: String,
    pub document_name: String,
    pub line: usize,
    pub column: usize,
    pub match_text: String,
    pub context: String,
}

/// The mathematical content of one hit.
pub struct HitV {
    pub path: Seq<char>,
    pub name: Seq<char>,
    pub line: int,
    pub column: int,
    pub match_text: Seq<char>,
    pub context: Seq<char>,
}

pub open spec fn hit_view(h: SearchHit) -> HitV {
    HitV {
        path: h.document_path@,
        name: h.document_name@,
        line: h.line as int,
        column: h.column as int,
        match_text: h.match_text@,
        context: h.context@,
    }
}

/// The non-overlapping match positions of the folded query in the folded
/// line, scanning from `from`: after each match the scan resumes past the
/// matched span, so `aa` in `aaa` matches once.
pub open spec fn line_matches(fline: Seq<char>, fquery: Seq<char>, from: int) -> Seq<int>
    decreases fline.len() + 1 - from
        when 0 <= from <= fline.len() + 1 && fquery.len() > 0 via line_matches_decreases
{
    match find_from(fline, fquery, from) {
        Option::None => Seq::empty(),
        Option::Some(p) => seq![p] + line_matches(fline, fquery, p + fquery.len()),
    }
}

#[via_fn]
proof fn line_matches_decreases(fline: Seq<char>, fquery: Seq<char>, from: int) {
    lemma_find_from_bounds(fline, fquery, from);
}

/// The context string for a match at `p` of length `qlen`: the line,
/// clipped to 30 characters on each side of the match, an ellipsis on each
/// clipped side, the whole trimmed of outer whitespace.
pub open spec fn context_of(line: Seq<char>, p: int, qlen: int) -> Seq<char> {
    let cs = if p >= 30 { p - 30 } else { 0 };
    let me = p + qlen;
    let ce = if me + 30 < line.len() { me + 30 } else { line.len() as int };
    let core = line.subrange(cs, ce);
    let pre = if cs > 0 { seq!['.', '.', '.'] + core } else { core };
    let full = if ce < line.len() { pre + seq!['.', '.', '.'] } else { pre };
    trim_spec(full)
}

/// The hit recorded for a match of the query at position `p` of the given
/// line: 1-based character column, verbatim matched text, clipped context.
pub open spec fn hit_at(
    path: Seq<char>,
    name: Seq<char>,
    line_text: Seq<char>,
    qlen: int,
    lineno: int,
    p: int,
) -> HitV {
    HitV {
        path: path,
        name: name,
        line: lineno,
        column: p + 1,
        match_text: line_text.subrange(p, p + qlen),
        context: context_of(line_text, p, qlen),
    }
}

/// All hits of one line, in scan order.
pub open spec fn hits_of_line(
    path: Seq<char>,
    name: Seq<char>,
    line_text: Seq<char>,
    query: Seq<char>,
    lineno: int,
) -> Seq<HitV> {
    let ps = line_matches(fold_chars(line_text), fold_chars(query), 0);
    Seq::new(ps.len(), |k: int| hit_at(path, name, line_text, query.len() as int, lineno, ps[k]))
}

/// All hits of the lines from index `idx` on, lines numbered from 1.
pub open spec fn hits_from_line(
    path: Seq<char>,
    name: Seq<char>,
    lines: Seq<Seq<char>>,
    query: Seq<char>,
    idx: int,
) -> Seq<HitV>
    decreases lines.len() - idx
        when 0 <= idx <= lines.len()
{
    if idx >= lines.len() {
        Seq::empty()
    } else {
        hits_of_line(path, name, lines[idx], query, idx + 1) + hits_from_line(
            path,
            name,
            lines,
            query,
            idx + 1,
        )
    }
}

/// All hits of one file's content, in line order.
pub open spec fn file_hits(
    path: Seq<char>,
    name: Seq<char>,
    content: Seq<char>,
    query: Seq<char>,
) -> Seq<HitV> {
    hits_from_line(path, name, lines_of(content), query, 0)
}

/// A caller-supplied extension, case-folded, with one leading dot
/// ignored, so `.txt` and `txt` select the same files.
pub open spec fn norm_ext(x: Seq<char>) -> Seq<char> {
    fold_chars(
        if x.len() > 0 && x[0] == '.' {
            x.drop_first()
        } else {
            x
        },
    )
}

/// Whether the search selects a file: its extension, case-folded, equals
/// one of the caller-supplied extensions.
pub open spec fn searchable(path: Seq<char>, exts: Seq<Seq<char>>) -> bool {
    match ext_of(path) {
        Option::None => false,
        Option::Some(e) => exists|i: int|
            0 <= i < exts.len() && norm_ext(#[trigger] exts[i]) == fold_chars(e),
    }
}

/// What a walk of part of the tree yields: its hits in discovery order, or
/// the failure text of the first unreadable directory it reaches.
pub enum SearchOutcome {
    Found(Seq<HitV>),
    Failed(Seq<char>),
}

/// Sequencing of two walk outcomes: an earlier failure wins.
pub open spec fn combine(a: SearchOutcome, b: SearchOutcome) -> SearchOutcome {
    match a {
        SearchOutcome::Failed(m) => SearchOutcome::Failed(m),
        SearchOutcome::Found(h1) => match b {
            SearchOutcome::Failed(m) => SearchOutcome::Failed(m),
            SearchOutcome::Found(h2) => SearchOutcome::Found(h1 + h2),
        },
    }
}

/// What one entry contributes: a skipped name nothing, a selected readable
/// file its hits, an unreadable file nothing, a directory its whole
/// subtree — or the failure if that subtree could not be read.
pub open spec fn entry_hits(e: RawEntry, query: Seq<char>, exts: Seq<Seq<char>>) -> SearchOutcome
    decreases e, 0int,
{
    match e {
        RawEntry::File { name, path, content } => {
            if hidden_or_ignored(name@) {
                SearchOutcome::Found(Seq::empty())
            } else if searchable(path@, exts) {
                match content {
                    Option::Some(c) => SearchOutcome::Found(file_hits(path@, name@, c@, query)),
                    Option::None => SearchOutcome::Found(Seq::empty()),
                }
            } else {
                SearchOutcome::Found(Seq::empty())
            }
        },
        RawEntry::Dir { name, path, listing } => {
            if hidden_or_ignored(name@) {
                SearchOutcome::Found(Seq::empty())
            } else {
                match listing {
                    RawListing::Entries(subs) => tree_hits(subs@, query, exts),
                    RawListing::Unread => SearchOutcome::Failed(Seq::empty()),
                    RawListing::ReadFailed(m) => SearchOutcome::Failed(m@),
                }
            }
        },
    }
}

/// The whole walk, depth-first in entry order.
pub open spec fn tree_hits(es: Seq<RawEntry>, query: Seq<char>, exts: Seq<Seq<char>>) -> SearchOutcome
    decreases es, 1int,
{
    if es.len() == 0 {
        SearchOutcome::Found(Seq::empty())
    } else {
        combine(entry_hits(es[0], query, exts), tree_hits(es.drop_first(), query, exts))
    }
}

/// The first `SEARCH_CAP` hits in discovery order.
pub open spec fn capped(h: Seq<HitV>) -> Seq<HitV> {
    if h.len() <= SEARCH_CAP {
        h
    } else {
        h.take(SEARCH_CAP as int)
    }
}

proof fn lemma_combine_assoc(a: SearchOutcome, b: SearchOutcome, c: SearchOutcome)
    ensures
        combine(a, combine(b, c)) == combine(combine(a, b), c),
{
    match a {
        SearchOutcome::Failed(m) => {},
        SearchOutcome::Found(h1) => match b {
            SearchOutcome::Failed(m) => {},
            SearchOutcome::Found(h2) => match c {
                SearchOutcome::Failed(m) => {},
                SearchOutcome::Found(h3) => {
                    assert((h1 + h2) + h3 =~= h1 + (h2 + h3));
                },
            },
        },
    }
}

proof fn lemma_tree_hits_push(es: Seq<RawEntry>, e: RawEntry, query: Seq<char>, exts: Seq<Seq<char>>)
    ensures
        tree_hits(es.push(e), query, exts) == combine(
            tree_hits(es, query, exts),
            entry_hits(e, query, exts),
        ),
    decreases es.len(),
{
    if es.len() == 0 {
        assert(es.push(e)[0] == e);
        assert(es.push(e).drop_first() =~= Seq::<RawEntry>::empty());
        assert(tree_hits(Seq::<RawEntry>::empty(), query, exts) == SearchOutcome::Found(
            Seq::<HitV>::empty(),
        ));
        assert(tree_hits(es.push(e), query, exts) == combine(
            entry_hits(e, query, exts),
            SearchOutcome::Found(Seq::<HitV>::empty()),
        ));
        assert(tree_hits(es, query, exts) == SearchOutcome::Found(Seq::<HitV>::empty()));
        match entry_hits(e, query, exts) {
            SearchOutcome::Failed(m) => {},
            SearchOutcome::Found(h) => {
                assert(h + Seq::<HitV>::empty() =~= h);
                assert(Seq::<HitV>::empty() + h =~= h);
            },
        }
    } else {
        lemma_tree_hits_push(es.drop_first(), e, query, exts);
        assert(es.push(e).drop_first() =~= es.drop_first().push(e));
        assert(es.push(e)[0] == es[0]);
        assert(tree_hits(es.push(e), query, exts) == combine(
            entry_hits(es[0], query, exts),
            tree_hits(es.drop_first().push(e), query, exts),
        ));
        assert(tree_hits(es, query, exts) == combine(
            entry_hits(es[0], query, exts),
            tree_hits(es.drop_first(), query, exts),
        ));
        lemma_combine_assoc(
            entry_hits(es[0], query, exts),
            tree_hits(es.drop_first(), query, exts),
            entry_hits(e, query, exts),
        );
    }
}

/// The walk fails as soon as it reaches a failing entry, whatever follows.
proof fn lemma_tree_hits_failed_at(
    es: Seq<RawEntry>,
    i: int,
    m: Seq<char>,
    query: Seq<char>,
    exts: Seq<Seq<char>>,
)
    requires
        0 <= i < es.len(),
        tree_hits(es.take(i), query, exts) matches SearchOutcome::Found(h),
        entry_hits(es[i], query, exts) == SearchOutcome::Failed(m),
    ensures
        tree_hits(es, query, exts) == SearchOutcome::Failed(m),
    decreases i,
{
    if i == 0 {
        assert(es.len() > 0);
    } else {
        assert(es.take(i)[0] == es[0]);
        assert(es.take(i).drop_first() =~= es.drop_first().take(i - 1));
        assert(es.drop_first()[i - 1] == es[i]);
        lemma_tree_hits_failed_at(es.drop_first(), i - 1, m, query, exts);
    }
}


/// Every position the non-overlapping scan reports is a real match
/// position within the line.
proof fn lemma_line_matches_valid(fline: Seq<char>, fquery: Seq<char>, from: int)
    requires
        0 <= from <= fline.len() + 1,
        fquery.len() > 0,
    ensures
        forall|k: int|
            0 <= k < line_matches(fline, fquery, from).len() ==> match_at(
                fline,
                fquery,
                #[trigger] line_matches(fline, fquery, from)[k],
            ),
    decreases fline.len() + 1 - from,
{
    lemma_find_from_bounds(fline, fquery, from);
    match find_from(fline, fquery, from) {
        Option::None => {},
        Option::Some(p) => {
            lemma_line_matches_valid(fline, fquery, p + fquery.len());
            assert forall|k: int|
                0 <= k < line_matches(fline, fquery, from).len() implies match_at(
                fline,
                fquery,
                #[trigger] line_matches(fline, fquery, from)[k],
            ) by {
                if k > 0 {
                    assert(line_matches(fline, fquery, from)[k] == line_matches(
                        fline,
                        fquery,
                        p + fquery.len(),
                    )[k - 1]);
                }
            }
        },
    }
}

/// Every hit's column indexes a valid position in its reported line:
/// 1-based, and the whole matched span lies inside the line.
pub proof fn lemma_hit_columns_valid(
    path: Seq<char>,
    name: Seq<char>,
    line_text: Seq<char>,
    query: Seq<char>,
    lineno: int,
)
    requires
        query.len() > 0,
    ensures
        forall|k: int|
            0 <= k < hits_of_line(path, name, line_text, query, lineno).len() ==> {
                let h = #[trigger] hits_of_line(path, name, line_text, query, lineno)[k];
                1 <= h.column && h.column + query.len() - 1 <= line_text.len()
            },
{
    let fl = fold_chars(line_text);
    let fq = fold_chars(query);
    lemma_line_matches_valid(fl, fq, 0);
    assert(fl.len() == line_text.len());
    assert(fq.len() == query.len());
}

/// The capped result never exceeds the cap.
pub proof fn lemma_cap_bounds_length(h: Seq<HitV>)
    ensures
        capped(h).len() <= SEARCH_CAP,
{
}

/// Whether the query is blank: empty or whitespace only.
pub fn query_is_blank(query: &str) -> (r: bool)
    ensures
        r == all_space(query@),
{
    let v = chars_of(query);
    let mut i: usize = 0;
    while i < v.len()
        invariant
            v@ == query@,
            i <= v@.len(),
            forall|j: int| 0 <= j < i ==> crate::chartext::is_space(#[trigger] v@[j]),
        decreases v@.len() - i,
    {
        if !is_space_char(v[i]) {
            proof {
                assert(!all_space(query@));
            }
            return false;
        }
        i = i + 1;
    }
    true
}

/// Whether a file is selected by the caller-supplied extension list.
pub fn is_searchable_file(path: &str, extensions: &Vec<String>) -> (r: bool)
    ensures
        r == searchable(path@, seq_views(extensions@)),
{
    let folded = match extension_of(path) {
        Some(e) => e,
        None => {
            return false;
        },
    };
    let mut i: usize = 0;
    while i < extensions.len()
        invariant
            i <= extensions@.len(),
            ext_of(path@) matches Option::Some(s) && folded@ == fold_chars(s),
            forall|j: int| 0 <= j < i ==> norm_ext(#[trigger] seq_views(extensions@)[j]) != folded@,
        decreases extensions@.len() - i,
    {
        let mut v = chars_of(extensions[i].as_str());
        if v.len() > 0 && v[0] == '.' {
            let stripped = sub_vec(&v, 1, v.len());
            proof {
                assert(stripped@ =~= v@.drop_first());
            }
            v = stripped;
        }
        let fv = fold_vec(&v);
        proof {
            assert(seq_views(extensions@)[i as int] == extensions@[i as int]@);
            assert(fv@ == norm_ext(seq_views(extensions@)[i as int]));
        }
        if eq_vecs(&fv, &folded) {
            return true;
        }
        i = i + 1;
    }
    false
}

/// The context window for a match, per [`context_of`].
fn context_exec(line: &Vec<char>, p: usize, qlen: usize) -> (r: Vec<char>)
    requires
        p + qlen <= line@.len(),
    ensures
        r@ == context_of(line@, p as int, qlen as int),
{
    let llen = line.len();
    let cs: usize = if p >= 30 {
        p - 30
    } else {
        0
    };
    let me = p + qlen;
    let ce: usize = if llen - me > 30 {
        me + 30
    } else {
        llen
    };
    let core = sub_vec(line, cs, ce);
    let mut v: Vec<char> = Vec::new();
    if cs > 0 {
        v.push('.');
        v.push('.');
        v.push('.');
    }
    crate::chartext::append_vec(&mut v, &core);
    if ce < llen {
        v.push('.');
        v.push('.');
        v.push('.');
    }
    proof {
        let csi = cs as int;
        let cei = ce as int;
        let corev = line@.subrange(csi, cei);
        let pre = if csi > 0 { seq!['.', '.', '.'] + corev } else { corev };
        let full = if cei < line@.len() { pre + seq!['.', '.', '.'] } else { pre };
        assert(v@ =~= full);
    }
    trim_vec(&v)
}

/// All hits of one line of a document, per [`hits_of_line`].
fn line_hits_exec(
    path: &str,
    name: &str,
    line: &Vec<char>,
    query: &str,
    fquery: &Vec<char>,
    lineno: usize,
) -> (r: Vec<SearchHit>)
    requires
        fquery@ == fold_chars(query@),
        query@.len() >= 1,
        lineno >= 1,
    ensures
        r@.map_values(|h: SearchHit| hit_view(h)) == hits_of_line(
            path@,
            name@,
            line@,
            query@,
            lineno as int,
        ),
{
    let fl = fold_vec(line);
    let qlen = fquery.len();
    let llen = line.len();
    let ghost ps_full = line_matches(fl@, fquery@, 0);
    let mut hits: Vec<SearchHit> = Vec::new();
    let ghost mut done: Seq<int> = Seq::empty();
    let mut cursor: usize = 0;
    proof {
        assert(ps_full =~= done + line_matches(fl@, fquery@, 0));
    }
    loop
        invariant
            fquery@ == fold_chars(query@),
            fl@ == fold_chars(line@),
            qlen == query@.len(),
            llen == line@.len(),
            lineno >= 1,
            qlen >= 1,
            cursor <= fl@.len(),
            ps_full == line_matches(fl@, fquery@, 0),
            ps_full == done + line_matches(fl@, fquery@, cursor as int),
            hits@.len() == done.len(),
            forall|k: int|
                0 <= k < done.len() ==> hit_view(#[trigger] hits@[k]) == hit_at(
                    path@,
                    name@,
                    line@,
                    query@.len() as int,
                    lineno as int,
                    done[k],
                ),
        decreases fl@.len() + 1 - cursor,
    {
        match find_vec(&fl, fquery, cursor) {
            None => {
                proof {
                    assert(line_matches(fl@, fquery@, cursor as int) =~= Seq::<int>::empty());
                    assert(ps_full =~= done);
                    assert(hits@.map_values(|h: SearchHit| hit_view(h)) =~= hits_of_line(
                        path@,
                        name@,
                        line@,
                        query@,
                        lineno as int,
                    )) by {
                        assert(ps_full == line_matches(fold_chars(line@), fold_chars(query@), 0));
                        assert forall|k: int| 0 <= k < done.len() implies hit_view(
                            #[trigger] hits@[k],
                        ) == hit_at(path@, name@, line@, query@.len() as int, lineno as int,
                            ps_full[k]) by {
                            assert(done[k] == ps_full[k]);
                        }
                    };
                }
                return hits;
            },
            Some(p) => {
                proof {
                    lemma_find_from_bounds(fl@, fquery@, cursor as int);
                    assert(line_matches(fl@, fquery@, cursor as int) == seq![p as int]
                        + line_matches(fl@, fquery@, p + qlen));
                }
                let matched = sub_vec(line, p, p + qlen);
                let ctx = context_exec(line, p, qlen);
                let h = SearchHit {
                    document_path: path.to_owned(),
                    document_name: name.to_owned(),
                    line: lineno,
                    column: p + 1,
                    match_text: string_of(&matched),
                    context: string_of(&ctx),
                };
                let ghost done_before = done;
                let ghost hits_before = hits@;
                proof {
                    assert(hit_view(h) == hit_at(path@, name@, line@, query@.len() as int,
                        lineno as int, p as int));
                    done = done.push(p as int);
                }
                hits.push(h);
                proof {
                    assert(hits@ =~= hits_before.push(h));
                    assert(done == done_before.push(p as int));
                    assert(ps_full =~= done + line_matches(fl@, fquery@, p + qlen));
                }
                cursor = p + qlen;
            },
        }
    }
}

fn search_lines_from(
    path: &str,
    name: &str,
    lines: &Vec<Vec<char>>,
    query: &str,
    fquery: &Vec<char>,
    idx: usize,
) -> (r: Vec<SearchHit>)
    requires
        idx <= lines@.len(),
        fquery@ == fold_chars(query@),
        query@.len() >= 1,
    ensures
        r@.map_values(|h: SearchHit| hit_view(h)) == hits_from_line(
            path@,
            name@,
            lines@.map_values(|l: Vec<char>| l@),
            query@,
            idx as int,
        ),
    decreases lines@.len() - idx,
{
    if idx >= lines.len() {
        let r: Vec<SearchHit> = Vec::new();
        proof {
            assert(r@.map_values(|h: SearchHit| hit_view(h)) =~= Seq::<HitV>::empty());
        }
        return r;
    }
    let mut own = line_hits_exec(path, name, &lines[idx], query, fquery, idx + 1);
    let ghost own_view = own@;
    let mut rest = search_lines_from(path, name, lines, query, fquery, idx + 1);
    let ghost rest_view = rest@;
    own.append(&mut rest);
    proof {
        let lv = lines@.map_values(|l: Vec<char>| l@);
        assert(lv[idx as int] == lines@[idx as int]@);
        assert(own@.map_values(|h: SearchHit| hit_view(h)) =~= own_view.map_values(
            |h: SearchHit| hit_view(h),
        ) + rest_view.map_values(|h: SearchHit| hit_view(h)));
    }
    own
}

/// All hits of one document's text, per [`file_hits`]: case-insensitive,
/// non-overlapping, with exact line and column accounting.
pub fn search_in_file(path: &str, name: &str, content: &str, query: &str) -> (r: Vec<SearchHit>)
    requires
        !all_space(query@),
    ensures
        r@.map_values(|h: SearchHit| hit_view(h)) == file_hits(path@, name@, content@, query@),
{
    proof {
        if query@.len() == 0 {
            assert(all_space(query@));
        }
    }
    let fquery = fold_vec(&chars_of(query));
    let cv = chars_of(content);
    let lines = split_lines(&cv);
    search_lines_from(path, name, &lines, query, &fquery, 0)
}

fn search_entries(
    es: &Vec<RawEntry>,
    query: &str,
    fquery: &Vec<char>,
    extensions: &Vec<String>,
) -> (r: Result<Vec<SearchHit>, FsError>)
    requires
        fquery@ == fold_chars(query@),
        !all_space(query@),
    ensures
        match tree_hits(es@, query@, seq_views(extensions@)) {
            SearchOutcome::Found(h) => r matches Ok(v) && v@.map_values(
                |hh: SearchHit| hit_view(hh),
            ) == h,
            SearchOutcome::Failed(m) => r matches Err(e) && (e matches FsError::Io { message }
                && message@ == m),
        },
    decreases es@,
{
    let mut out: Vec<SearchHit> = Vec::new();
    proof {
        assert(es@.take(0) =~= Seq::<RawEntry>::empty());
        assert(out@.map_values(|hh: SearchHit| hit_view(hh)) =~= Seq::<HitV>::empty());
        assert(tree_hits(es@.take(0), query@, seq_views(extensions@)) == SearchOutcome::Found(
            Seq::<HitV>::empty(),
        ));
    }
    let mut i: usize = 0;
    while i < es.len()
        invariant
            fquery@ == fold_chars(query@),
            !all_space(query@),
            i <= es@.len(),
            tree_hits(es@.take(i as int), query@, seq_views(extensions@))
                == SearchOutcome::Found(out@.map_values(|hh: SearchHit| hit_view(hh))),
        decreases es@.len() - i,
    {
        let ghost es_seen = es@.take(i as int);
        let ghost out_before = out@;
        let ghost exts = seq_views(extensions@);
        match &es[i] {
            RawEntry::File { name, path, content } => {
                if !name_skipped(name.as_str()) && is_searchable_file(path.as_str(), extensions) {
                    match content {
                        Some(c) => {
                            let mut hits = search_in_file(
                                path.as_str(),
                                name.as_str(),
                                c.as_str(),
                                query,
                            );
                            let ghost hits_view = hits@;
                            out.append(&mut hits);
                            proof {
                                assert(entry_hits(es@[i as int], query@, exts)
                                    == SearchOutcome::Found(hits_view.map_values(
                                    |hh: SearchHit| hit_view(hh),
                                )));
                                assert(out@.map_values(|hh: SearchHit| hit_view(hh))
                                    =~= out_before.map_values(|hh: SearchHit| hit_view(hh))
                                    + hits_view.map_values(|hh: SearchHit| hit_view(hh)));
                            }
                        },
                        None => {
                            proof {
                                assert(entry_hits(es@[i as int], query@, exts)
                                    == SearchOutcome::Found(Seq::<HitV>::empty()));
                            }
                        },
                    }
                } else {
                    proof {
                        assert(entry_hits(es@[i as int], query@, exts) == SearchOutcome::Found(
                            Seq::<HitV>::empty(),
                        ));
                    }
                }
            },
            RawEntry::Dir { name, path, listing } => {
                if !name_skipped(name.as_str()) {
                    match listing {
                        RawListing::Entries(subs) => {
                            proof {
                                assert(decreases_to!(es@ => es@[i as int]));
                                assert(decreases_to!(es@[i as int] => subs@));
                            }
                            match search_entries(subs, query, fquery, extensions) {
                                Ok(mut hits) => {
                                    let ghost hits_view = hits@;
                                    out.append(&mut hits);
                                    proof {
                                        assert(entry_hits(es@[i as int], query@, exts)
                                            == SearchOutcome::Found(hits_view.map_values(
                                            |hh: SearchHit| hit_view(hh),
                                        )));
                                        assert(out@.map_values(|hh: SearchHit| hit_view(hh))
                                            =~= out_before.map_values(
                                            |hh: SearchHit| hit_view(hh),
                                        ) + hits_view.map_values(|hh: SearchHit| hit_view(hh)));
                                    }
                                },
                                Err(e) => {
                                    proof {
                                        let m = match entry_hits(es@[i as int], query@, exts) {
                                            SearchOutcome::Failed(mm) => mm,
                                            SearchOutcome::Found(_) => Seq::empty(),
                                        };
                                        lemma_tree_hits_failed_at(es@, i as int, m, query@, exts);
                                    }
                                    return Err(e);
                                },
                            }
                        },
                        RawListing::Unread => {
                            proof {
                                lemma_tree_hits_failed_at(es@, i as int, Seq::empty(), query@,
                                    exts);
                            }
                            return Err(FsError::Io { message: String::new() });
                        },
                        RawListing::ReadFailed(m) => {
                            proof {
                                lemma_tree_hits_failed_at(es@, i as int, m@, query@, exts);
                            }
                            return Err(FsError::Io { message: m.clone() });
                        },
                    }
                } else {
                    proof {
                        assert(entry_hits(es@[i as int], query@, exts) == SearchOutcome::Found(
                            Seq::<HitV>::empty(),
                        ));
                    }
                }
            },
        }
        proof {
            assert(es@.take(i + 1) =~= es_seen.push(es@[i as int]));
            lemma_tree_hits_push(es_seen, es@[i as int], query@, exts);
        }
        i = i + 1;
    }
    proof {
        assert(es@.take(es@.len() as int) =~= es@);
    }
    Ok(out)
}

/// Searches a project tree for a query.
///
/// A blank query returns no hits without looking at anything. Otherwise
/// the observed tree is walked depth-first under the shared skip policy,
/// files are selected by the caller-supplied extension list, and the first
/// [`SEARCH_CAP`] hits in discovery order are returned. An unreadable
/// directory fails the whole search; an unreadable file is skipped.
pub fn search_in_project(root: &RootDir, query: &str, extensions: &Vec<String>) -> (r: Result<
    Vec<SearchHit>,
    FsError,
>)
    ensures
        all_space(query@) ==> (r matches Ok(v) && v@.len() == 0),
        !all_space(query@) ==> match *root {
            RootDir::NotADirectory => r matches Err(e) && e is NotADirectory,
            RootDir::ReadFailed(m) => r matches Err(e) && (e matches FsError::Io { message }
                && message@ == m@),
            RootDir::Entries(es) => match tree_hits(es@, query@, seq_views(extensions@)) {
                SearchOutcome::Found(h) => r matches Ok(v) && v@.map_values(
                    |hh: SearchHit| hit_view(hh),
                ) == capped(h),
                SearchOutcome::Failed(m) => r matches Err(e) && (e matches FsError::Io { message }
                    && message@ == m),
            },
        },
{
    if query_is_blank(query) {
        return Ok(Vec::new());
    }
    proof {
        if query@.len() == 0 {
            assert(all_space(query@));
        }
    }
    match root {
        RootDir::NotADirectory => Err(FsError::NotADirectory),
        RootDir::ReadFailed(m) => Err(FsError::Io { message: m.clone() }),
        RootDir::Entries(es) => {
            let fquery = fold_vec(&chars_of(query));
            match search_entries(es, query, &fquery, extensions) {
                Err(e) => Err(e),
                Ok(mut v) => {
                    let ghost full = v@.map_values(|hh: SearchHit| hit_view(hh));
                    if v.len() > SEARCH_CAP {
                        v.truncate(SEARCH_CAP);
                        proof {
                            assert(v@.map_values(|hh: SearchHit| hit_view(hh)) =~= full.take(
                                SEARCH_CAP as int,
                            ));
                        }
                    }
                    Ok(v)
                },
            }
        },
    }
}

} // verus!
