//! The directory-tree enumerator.
//!
//! `list_directory` takes the observed entries of a directory — names,
//! paths, and for subdirectories either their own observed entries or a
//! marker that reading them failed — and produces the filtered,
//! deterministically ordered tree of [`FileItem`]s: hidden and ignored
//! names are skipped, non-directory entries must carry a whitelisted text
//! extension, and at every level directories precede files with same-kind
//! siblings in case-insensitive name order. A subtree whose read failed
//! degrades to absent children rather than failing the whole call; only a
//! failure at the root is an error.
//!
//! The recursion is over the snapshot value, so it terminates for any
//! input; the caller is responsible for taking a finite snapshot (bounding
//! depth against symlink cycles) before handing it in.

use vstd::prelude::*;
use vstd::seq_lib::lemma_multiset_commutative;
use vstd::multiset::Multiset;
use crate::chartext::{chars_of, eq_str, fold_chars, fold_vec};
use crate::common::{generate_id, id_of, is_text_file, text_file};
use crate::errs::FsError;

verus! {

/// What was observed inside one subdirectory.
pub enum RawListing {
    /// The directory was read; these are its entries.
    Entries(Vec<RawEntry>),
    /// The directory was not read (enumeration was not recursive).
    Unread,
    /// Reading the directory failed; carries the reported failure text.
    ReadFailed(String),
}

/// One observed directory entry.
pub enum RawEntry {
    File { name: String, path: String, content: Option<String> },
    Dir { name: String, path: String, listing: RawListing },
}

/// What was observed at the enumeration root.
pub enum RootDir {
    /// The root path is not a directory.
    NotADirectory,
    /// Reading the root failed; carries the reported failure text.
    ReadFailed(String),
    /// The root was read; these are its entries.
    Entries(Vec<RawEntry>),
}

/// One node of the produced tree. `item_type` is `"folder"` or `"file"`;
/// `children` is present only for directories whose subtree was enumerated.
pub struct FileItem {
    pub id: String,
    pub name: String,
    pub path: String,
    pub item_type: String,
    pub children: Option<Vec<FileItem>>,
}

/// Entries skipped everywhere: hidden names and the two reserved
/// dependency/build directory names.
pub open spec fn hidden_or_ignored(name: Seq<char>) -> bool {
    ||| (name.len() > 0 && name[0] == '.')
    ||| name == "node_modules"@
    ||| name == "target"@
}

/// Whether the tree view keeps this entry: never a hidden or ignored name,
/// and a non-directory only with a whitelisted text extension.
pub open spec fn keep_entry(e: RawEntry) -> bool {
    match e {
        RawEntry::File { name, path, content } => !hidden_or_ignored(name@) && text_file(path@),
        RawEntry::Dir { name, path, listing } => !hidden_or_ignored(name@),
    }
}

pub open spec fn is_folder(f: FileItem) -> bool {
    f.item_type@ == "folder"@
}

/// Case-insensitive lexicographic order on names, by Unicode scalar value
/// of the folded characters.
pub open spec fn lex_le(a: Seq<char>, b: Seq<char>) -> bool
    decreases a.len(),
{
    if a.len() == 0 {
        true
    } else if b.len() == 0 {
        false
    } else if (a[0] as u32) == (b[0] as u32) {
        lex_le(a.drop_first(), b.drop_first())
    } else {
        (a[0] as u32) < (b[0] as u32)
    }
}

/// Sibling order: directories before files, then case-insensitive name
/// order.
pub open spec fn node_le(a: FileItem, b: FileItem) -> bool {
    if is_folder(a) && !is_folder(b) {
        true
    } else if !is_folder(a) && is_folder(b) {
        false
    } else {
        lex_le(fold_chars(a.name@), fold_chars(b.name@))
    }
}

/// The sequence is ordered by [`node_le`].
pub open spec fn sorted_nodes(s: Seq<FileItem>) -> bool {
    forall|i: int, j: int| 0 <= i < j < s.len() ==> node_le(#[trigger] s[i], #[trigger] s[j])
}

/// The sibling order is total.
pub proof fn lemma_lex_total(a: Seq<char>, b: Seq<char>)
    ensures
        lex_le(a, b) || lex_le(b, a),
    decreases a.len(),
{
    if a.len() > 0 && b.len() > 0 && (a[0] as u32) == (b[0] as u32) {
        lemma_lex_total(a.drop_first(), b.drop_first());
    }
}

/// The sibling order is transitive.
pub proof fn lemma_lex_trans(a: Seq<char>, b: Seq<char>, c: Seq<char>)
    requires
        lex_le(a, b),
        lex_le(b, c),
    ensures
        lex_le(a, c),
    decreases a.len(),
{
    if a.len() > 0 && c.len() > 0 {
        if b.len() == 0 {
        } else {
            if (a[0] as u32) == (b[0] as u32) && (b[0] as u32) == (c[0] as u32) {
                lemma_lex_trans(a.drop_first(), b.drop_first(), c.drop_first());
            }
        }
    }
}

pub proof fn lemma_node_le_total(a: FileItem, b: FileItem)
    ensures
        node_le(a, b) || node_le(b, a),
{
    lemma_lex_total(fold_chars(a.name@), fold_chars(b.name@));
}

pub proof fn lemma_node_le_trans(a: FileItem, b: FileItem, c: FileItem)
    requires
        node_le(a, b),
        node_le(b, c),
    ensures
        node_le(a, c),
{
    if !(is_folder(a) && !is_folder(c)) && !(!is_folder(a) && is_folder(c)) {
        if is_folder(a) == is_folder(b) && is_folder(b) == is_folder(c) {
            lemma_lex_trans(
                fold_chars(a.name@),
                fold_chars(b.name@),
                fold_chars(c.name@),
            );
        }
    }
}

fn is_folder_exec(f: &FileItem) -> (r: bool)
    ensures
        r == is_folder(*f),
{
    let v = chars_of(f.item_type.as_str());
    eq_str(&v, "folder")
}

/// Case-insensitive lexicographic comparison of two names.
pub fn lex_le_names_pub(a: &str, b: &str) -> (r: bool)
    ensures
        r == lex_le(fold_chars(a@), fold_chars(b@)),
{
    lex_le_names(a, b)
}

/// Case-insensitive lexicographic comparison of two names.
fn lex_le_names(a: &str, b: &str) -> (r: bool)
    ensures
        r == lex_le(fold_chars(a@), fold_chars(b@)),
{
    let x = fold_vec(&chars_of(a));
    let y = fold_vec(&chars_of(b));
    let ghost xs = x@;
    let ghost ys = y@;
    proof {
        assert(xs.skip(0) =~= xs);
        assert(ys.skip(0) =~= ys);
    }
    let mut i: usize = 0;
    while i < x.len() && i < y.len() && (x[i] as u32) == (y[i] as u32)
        invariant
            xs == x@,
            ys == y@,
            i <= xs.len(),
            i <= ys.len(),
            lex_le(xs, ys) == lex_le(xs.skip(i as int), ys.skip(i as int)),
        decreases xs.len() - i,
    {
        proof {
            let sx = xs.skip(i as int);
            let sy = ys.skip(i as int);
            assert(sx[0] == xs[i as int]);
            assert(sy[0] == ys[i as int]);
            assert(sx.drop_first() =~= xs.skip(i + 1));
            assert(sy.drop_first() =~= ys.skip(i + 1));
        }
        i = i + 1;
    }
    proof {
        let sx = xs.skip(i as int);
        let sy = ys.skip(i as int);
        if i < xs.len() && i < ys.len() {
            assert(sx[0] == xs[i as int]);
            assert(sy[0] == ys[i as int]);
        } else if i < xs.len() {
            assert(sx.len() > 0 && sy.len() == 0);
        } else {
            assert(sx.len() == 0);
        }
    }
    if i >= x.len() {
        true
    } else if i >= y.len() {
        false
    } else {
        (x[i] as u32) < (y[i] as u32)
    }
}

/// Sibling comparison: directories first, then folded name order.
fn le_nodes(a: &FileItem, b: &FileItem) -> (r: bool)
    ensures
        r == node_le(*a, *b),
{
    let af = is_folder_exec(a);
    let bf = is_folder_exec(b);
    if af && !bf {
        true
    } else if !af && bf {
        false
    } else {
        lex_le_names(a.name.as_str(), b.name.as_str())
    }
}

/// Stable ordering of siblings by [`node_le`]: the result is sorted and
/// holds exactly the given items.
fn sort_items(items: &mut Vec<FileItem>)
    ensures
        sorted_nodes(final(items)@),
        final(items)@.to_multiset() == old(items)@.to_multiset(),
{
    let ghost input = old(items)@;
    let mut out: Vec<FileItem> = Vec::new();
    proof {
        broadcast use vstd::seq_lib::group_to_multiset_ensures;

        assert(out@.to_multiset() =~= Multiset::<FileItem>::empty());
        assert(out@.to_multiset().add(items@.to_multiset()) =~= input.to_multiset());
    }
    loop
        invariant
            input == old(items)@,
            sorted_nodes(out@),
            out@.to_multiset().add(items@.to_multiset()) == input.to_multiset(),
        decreases items@.len(),
    {
        let ghost pre = items@;
        let popped = items.pop();
        match popped {
            None => {
                proof {
                    broadcast use vstd::seq_lib::group_to_multiset_ensures;

                    assert(items@.to_multiset() =~= Multiset::<FileItem>::empty());
                    assert(out@.to_multiset().add(Multiset::<FileItem>::empty())
                        =~= out@.to_multiset());
                    assert(out@.to_multiset() == input.to_multiset());
                }
                let ghost sorted_view = out@;
                items.append(&mut out);
                proof {
                    assert(items@ =~= sorted_view);
                    assert(items@.to_multiset() == input.to_multiset());
                    assert(input == old(items)@);
                }
                return ;
            },
            Some(x) => {
                proof {
                    broadcast use vstd::seq_lib::group_to_multiset_ensures;

                    assert(pre =~= items@.push(x));
                    assert(pre.to_multiset() == items@.to_multiset().insert(x));
                }
                let ghost before = out@;
                let mut j: usize = 0;
                while j < out.len() && le_nodes(&out[j], &x)
                    invariant
                        out@ == before,
                        j <= out@.len(),
                        forall|k: int| 0 <= k < j ==> node_le(#[trigger] out@[k], x),
                    decreases out@.len() - j,
                {
                    j = j + 1;
                }
                proof {
                    if j < out@.len() {
                        lemma_node_le_total(out@[j as int], x);
                    }
                }
                out.insert(j, x);
                proof {
                    broadcast use vstd::seq_lib::group_to_multiset_ensures;

                    // The new sequence is still sorted.
                    assert forall|p: int, q: int| 0 <= p < q < out@.len() implies node_le(
                        #[trigger] out@[p],
                        #[trigger] out@[q],
                    ) by {
                        let jj = j as int;
                        if p < jj && q == jj {
                        } else if p == jj && q > jj {
                            assert(before[q - 1] == out@[q]);
                            if q - 1 > jj {
                                lemma_node_le_trans(x, before[jj], before[q - 1]);
                            }
                        } else if p < jj && q > jj {
                            assert(out@[p] == before[p] && out@[q] == before[q - 1]);
                        } else if p > jj && q > jj {
                            assert(out@[p] == before[p - 1] && out@[q] == before[q - 1]);
                        }
                    }
                    // The multiset gained exactly `x`.
                    let jj = j as int;
                    assert(out@ =~= before.take(jj) + seq![x] + before.skip(jj));
                    lemma_multiset_commutative(before.take(jj) + seq![x], before.skip(jj));
                    lemma_multiset_commutative(before.take(jj), seq![x]);
                    assert(seq![x] =~= Seq::<FileItem>::empty().push(x));
                    assert(seq![x].to_multiset() =~= Multiset::<FileItem>::empty().insert(x));
                    assert(before =~= before.take(jj) + before.skip(jj));
                    lemma_multiset_commutative(before.take(jj), before.skip(jj));
                    assert(out@.to_multiset() =~= before.to_multiset().insert(x));
                    assert(before.to_multiset().add(pre.to_multiset()) == input.to_multiset());
                    assert(out@.to_multiset().add(items@.to_multiset()) =~= input.to_multiset());
                }
            },
        }
    }
}

/// How one kept entry determines one tree node: the identifier is the hash
/// of the absolute path, names and paths carry over, and a directory's
/// children are the built subtree exactly when enumeration was recursive
/// and the subtree was readable.
pub open spec fn entry_builds(e: RawEntry, f: FileItem, recursive: bool) -> bool
    decreases e, 0int,
{
    match e {
        RawEntry::File { name, path, content } => {
            &&& f.id@ == id_of(path@)
            &&& f.name@ == name@
            &&& f.path@ == path@
            &&& f.item_type@ == "file"@
            &&& f.children is None
        },
        RawEntry::Dir { name, path, listing } => {
            &&& f.id@ == id_of(path@)
            &&& f.name@ == name@
            &&& f.path@ == path@
            &&& f.item_type@ == "folder"@
            &&& match listing {
                RawListing::Entries(subs) => if recursive {
                    f.children matches Some(ch) && exists|us: Seq<FileItem>|
                        {
                            &&& items_rel(subs@, us, true)
                            &&& ch@.to_multiset() == #[trigger] us.to_multiset()
                            &&& sorted_nodes(ch@)
                        }
                } else {
                    f.children is None
                },
                RawListing::Unread => f.children is None,
                RawListing::ReadFailed(m) => f.children is None,
            }
        },
    }
}

/// Positional relation between the observed entries and the built items
/// before ordering: kept entries map one-to-one, in order; skipped entries
/// leave no trace.
pub open spec fn items_rel(es: Seq<RawEntry>, us: Seq<FileItem>, recursive: bool) -> bool
    decreases es, 1int,
{
    if es.len() == 0 {
        us.len() == 0
    } else if keep_entry(es[0]) {
        &&& us.len() > 0
        &&& entry_builds(es[0], us[0], recursive)
        &&& items_rel(es.drop_first(), us.drop_first(), recursive)
    } else {
        items_rel(es.drop_first(), us, recursive)
    }
}

/// The enumeration of one directory: the items are exactly those built
/// from the kept entries, reordered into sibling order.
pub open spec fn dir_built_with(es: Seq<RawEntry>, items: Seq<FileItem>, recursive: bool) -> bool {
    exists|us: Seq<FileItem>|
        {
            &&& #[trigger] items_rel(es, us, recursive)
            &&& items.to_multiset() == us.to_multiset()
            &&& sorted_nodes(items)
        }
}

proof fn lemma_items_rel_push_keep(
    es: Seq<RawEntry>,
    us: Seq<FileItem>,
    e: RawEntry,
    f: FileItem,
    rec: bool,
)
    requires
        items_rel(es, us, rec),
        keep_entry(e),
        entry_builds(e, f, rec),
    ensures
        items_rel(es.push(e), us.push(f), rec),
    decreases es.len(),
{
    if es.len() == 0 {
        assert(es.push(e)[0] == e);
        assert(es.push(e).drop_first() =~= Seq::<RawEntry>::empty());
        assert(us.push(f)[0] == f);
        assert(us.push(f).drop_first() =~= Seq::<FileItem>::empty());
        assert(items_rel(es.push(e).drop_first(), us.push(f).drop_first(), rec));
        assert(items_rel(es.push(e), us.push(f), rec));
    } else if keep_entry(es[0]) {
        lemma_items_rel_push_keep(es.drop_first(), us.drop_first(), e, f, rec);
        assert(es.push(e).drop_first() =~= es.drop_first().push(e));
        assert(us.push(f).drop_first() =~= us.drop_first().push(f));
        assert(es.push(e)[0] == es[0]);
        assert(us.push(f)[0] == us[0]);
    } else {
        lemma_items_rel_push_keep(es.drop_first(), us, e, f, rec);
        assert(es.push(e).drop_first() =~= es.drop_first().push(e));
        assert(es.push(e)[0] == es[0]);
    }
}

proof fn lemma_items_rel_push_skip(es: Seq<RawEntry>, us: Seq<FileItem>, e: RawEntry, rec: bool)
    requires
        items_rel(es, us, rec),
        !keep_entry(e),
    ensures
        items_rel(es.push(e), us, rec),
    decreases es.len(),
{
    if es.len() == 0 {
        assert(es.push(e)[0] == e);
        assert(es.push(e).drop_first() =~= Seq::<RawEntry>::empty());
        assert(items_rel(es.push(e).drop_first(), us, rec));
        assert(items_rel(es.push(e), us, rec));
    } else if keep_entry(es[0]) {
        lemma_items_rel_push_skip(es.drop_first(), us.drop_first(), e, rec);
        assert(es.push(e).drop_first() =~= es.drop_first().push(e));
        assert(es.push(e)[0] == es[0]);
        assert(items_rel(es.push(e), us, rec));
    } else {
        lemma_items_rel_push_skip(es.drop_first(), us, e, rec);
        assert(es.push(e).drop_first() =~= es.drop_first().push(e));
        assert(es.push(e)[0] == es[0]);
        assert(items_rel(es.push(e), us, rec));
    }
}

proof fn lemma_push_keep_dir(
    es: Seq<RawEntry>,
    us: Seq<FileItem>,
    e: RawEntry,
    f: FileItem,
    rec: bool,
    cw: Seq<FileItem>,
)
    requires
        items_rel(es, us, rec),
        keep_entry(e),
        f.item_type@ == "folder"@,
        (match e {
            RawEntry::Dir { name, path, listing } => {
                &&& f.id@ == id_of(path@)
                &&& f.name@ == name@
                &&& f.path@ == path@
                &&& match listing {
                    RawListing::Entries(subs) => if rec {
                        f.children matches Some(ch) && items_rel(subs@, cw, true)
                            && ch@.to_multiset() == cw.to_multiset() && sorted_nodes(ch@)
                    } else {
                        f.children is None
                    },
                    RawListing::Unread => f.children is None,
                    RawListing::ReadFailed(m) => f.children is None,
                }
            },
            RawEntry::File { name, path, content } => false,
        }),
    ensures
        items_rel(es.push(e), us.push(f), rec),
{
    assert(entry_builds(e, f, rec));
    lemma_items_rel_push_keep(es, us, e, f, rec);
}

/// Whether the shared skip policy drops this name.
pub fn name_skipped(name: &str) -> (r: bool)
    ensures
        r == hidden_or_ignored(name@),
{
    let v = chars_of(name);
    if v.len() > 0 && v[0] == '.' {
        return true;
    }
    eq_str(&v, "node_modules") || eq_str(&v, "target")
}

/// Builds and orders the items of one directory's observed entries.
fn build_items(entries: &Vec<RawEntry>, recursive: bool) -> (r: Vec<FileItem>)
    ensures
        dir_built_with(entries@, r@, recursive),
    decreases entries@,
{
    let mut us: Vec<FileItem> = Vec::new();
    proof {
        assert(entries@.take(0) =~= Seq::<RawEntry>::empty());
    }
    let mut i: usize = 0;
    while i < entries.len()
        invariant
            i <= entries@.len(),
            items_rel(entries@.take(i as int), us@, recursive),
        decreases entries@.len() - i,
    {
        let ghost es_seen = entries@.take(i as int);
        let ghost us_before = us@;
        match &entries[i] {
            RawEntry::File { name, path, content } => {
                if !name_skipped(name.as_str()) && is_text_file(path.as_str()) {
                    let f = FileItem {
                        id: generate_id(path.as_str()),
                        name: name.clone(),
                        path: path.clone(),
                        item_type: "file".to_owned(),
                        children: None,
                    };
                    proof {
                        lemma_items_rel_push_keep(es_seen, us_before, entries@[i as int], f,
                            recursive);
                    }
                    us.push(f);
                } else {
                    proof {
                        lemma_items_rel_push_skip(es_seen, us_before, entries@[i as int],
                            recursive);
                    }
                }
            },
            RawEntry::Dir { name, path, listing } => {
                if !name_skipped(name.as_str()) {
                    let mut built: Option<Vec<FileItem>> = None;
                    let ghost mut witness: Seq<FileItem> = Seq::empty();
                    if recursive {
                        match listing {
                            RawListing::Entries(subs) => {
                                proof {
                                    assert(decreases_to!(entries@ => entries@[i as int]));
                                    assert(decreases_to!(entries@[i as int] => subs@));
                                }
                                let sub_items = build_items(subs, true);
                                proof {
                                    witness = choose|us: Seq<FileItem>|
                                        {
                                            &&& #[trigger] items_rel(subs@, us, true)
                                            &&& sub_items@.to_multiset() == us.to_multiset()
                                            &&& sorted_nodes(sub_items@)
                                        };
                                    assert(items_rel(subs@, witness, true));
                                    assert(sub_items@.to_multiset() == witness.to_multiset());
                                }
                                built = Some(sub_items);
                            },
                            RawListing::Unread => {},
                            RawListing::ReadFailed(_) => {},
                        }
                    }
                    let f = FileItem {
                        id: generate_id(path.as_str()),
                        name: name.clone(),
                        path: path.clone(),
                        item_type: "folder".to_owned(),
                        children: built,
                    };
                    proof {
                        lemma_push_keep_dir(es_seen, us_before, entries@[i as int], f, recursive,
                            witness);
                    }
                    us.push(f);
                } else {
                    proof {
                        lemma_items_rel_push_skip(es_seen, us_before, entries@[i as int],
                            recursive);
                    }
                }
            },
        }
        proof {
            assert(entries@.take(i + 1) =~= es_seen.push(entries@[i as int]));
        }
        i = i + 1;
    }
    proof {
        assert(entries@.take(entries@.len() as int) =~= entries@);
    }
    let ghost us_view = us@;
    sort_items(&mut us);
    proof {
        assert(items_rel(entries@, us_view, recursive));
        assert(us@.to_multiset() == us_view.to_multiset());
        assert(sorted_nodes(us@));
        assert(dir_built_with(entries@, us@, recursive));
    }
    us
}

/// A node the enumeration may expose: its name is neither hidden nor
/// ignored, its kind is one of the two, a file carries a whitelisted text
/// extension and no children, and any children form a well-formed level.
pub open spec fn item_ok(f: FileItem) -> bool
    decreases f, 0int,
{
    &&& !hidden_or_ignored(f.name@)
    &&& (f.item_type@ == "folder"@ || f.item_type@ == "file"@)
    &&& (f.item_type@ == "file"@ ==> text_file(f.path@) && f.children is None)
    &&& match f.children {
        Option::Some(ch) => tree_ok(ch@),
        Option::None => true,
    }
}

/// A well-formed level of the tree: ordered by [`node_le`] — directories
/// before files, same-kind siblings in case-insensitive name order — with
/// every node, recursively, admissible.
pub open spec fn tree_ok(items: Seq<FileItem>) -> bool
    decreases items, 1int,
{
    &&& sorted_nodes(items)
    &&& forall|k: int| 0 <= k < items.len() ==> item_ok(#[trigger] items[k])
}

proof fn lemma_items_rel_element(es: Seq<RawEntry>, us: Seq<FileItem>, rec: bool, j: int)
    requires
        items_rel(es, us, rec),
        0 <= j < us.len(),
    ensures
        exists|i: int|
            0 <= i < es.len() && keep_entry(#[trigger] es[i]) && entry_builds(es[i], us[j], rec),
    decreases es.len(),
{
    if es.len() == 0 {
    } else if keep_entry(es[0]) {
        if j == 0 {
            assert(keep_entry(es[0]) && entry_builds(es[0], us[0], rec));
        } else {
            lemma_items_rel_element(es.drop_first(), us.drop_first(), rec, j - 1);
            let i0 = choose|i: int|
                0 <= i < es.drop_first().len() && keep_entry(#[trigger] es.drop_first()[i])
                    && entry_builds(es.drop_first()[i], us.drop_first()[j - 1], rec);
            assert(es[i0 + 1] == es.drop_first()[i0]);
            assert(us[j] == us.drop_first()[j - 1]);
            assert(keep_entry(es[i0 + 1]) && entry_builds(es[i0 + 1], us[j], rec));
        }
    } else {
        lemma_items_rel_element(es.drop_first(), us, rec, j);
        let i0 = choose|i: int|
            0 <= i < es.drop_first().len() && keep_entry(#[trigger] es.drop_first()[i])
                && entry_builds(es.drop_first()[i], us[j], rec);
        assert(es[i0 + 1] == es.drop_first()[i0]);
        assert(keep_entry(es[i0 + 1]) && entry_builds(es[i0 + 1], us[j], rec));
    }
}

/// Everything the enumeration returns is filtered and ordered, at every
/// level: no hidden entry, no ignored-name directory, no file whose
/// extension is off the text whitelist; and at each level directories
/// precede files with same-kind siblings in case-insensitive name order.
pub proof fn lemma_list_directory_wf(es: Seq<RawEntry>, items: Seq<FileItem>, rec: bool)
    requires
        dir_built_with(es, items, rec),
    ensures
        tree_ok(items),
    decreases es,
{
    broadcast use vstd::seq_lib::group_to_multiset_ensures;

    let us = choose|us: Seq<FileItem>|
        {
            &&& #[trigger] items_rel(es, us, rec)
            &&& items.to_multiset() == us.to_multiset()
            &&& sorted_nodes(items)
        };
    assert forall|k: int| 0 <= k < items.len() implies item_ok(#[trigger] items[k]) by {
        reveal_strlit("folder");
        reveal_strlit("file");
        assert("folder"@.len() == 6 && "file"@.len() == 4);
        assert(items.contains(items[k]));
        assert(us.to_multiset().count(items[k]) > 0);
        assert(us.contains(items[k]));
        let j = choose|j: int| 0 <= j < us.len() && us[j] == items[k];
        lemma_items_rel_element(es, us, rec, j);
        let i = choose|i: int|
            0 <= i < es.len() && keep_entry(#[trigger] es[i]) && entry_builds(es[i], us[j], rec);
        let f = items[k];
        match es[i] {
            RawEntry::File { name, path, content } => {
                assert(item_ok(f));
            },
            RawEntry::Dir { name, path, listing } => {
                match listing {
                    RawListing::Entries(subs) => {
                        if rec {
                            match f.children {
                                Option::Some(ch) => {
                                    let us2 = choose|us2: Seq<FileItem>|
                                        {
                                            &&& items_rel(subs@, us2, true)
                                            &&& ch@.to_multiset() == #[trigger] us2.to_multiset()
                                            &&& sorted_nodes(ch@)
                                        };
                                    assert(items_rel(subs@, us2, true));
                                    assert(dir_built_with(subs@, ch@, true));
                                    assert(decreases_to!(es => es[i]));
                                    assert(decreases_to!(es[i] => subs@));
                                    lemma_list_directory_wf(subs@, ch@, true);
                                },
                                Option::None => {},
                            }
                        }
                        assert(item_ok(f));
                    },
                    RawListing::Unread => {
                        assert(f.children is None);
                        assert(!hidden_or_ignored(f.name@));
                        assert(f.item_type@ == "folder"@);
                        assert(f.item_type@ != "file"@);
                        assert(item_ok(f));
                    },
                    RawListing::ReadFailed(m) => {
                        assert(item_ok(f));
                    },
                }
            },
        }
    }
}


/// How many entries the filter keeps.
pub open spec fn kept_count(es: Seq<RawEntry>) -> int
    decreases es.len(),
{
    if es.len() == 0 {
        0
    } else {
        (if keep_entry(es[0]) {
            1int
        } else {
            0int
        }) + kept_count(es.drop_first())
    }
}

proof fn lemma_items_rel_length(es: Seq<RawEntry>, us: Seq<FileItem>, rec: bool)
    requires
        items_rel(es, us, rec),
    ensures
        us.len() == kept_count(es),
    decreases es.len(),
{
    if es.len() == 0 {
    } else if keep_entry(es[0]) {
        lemma_items_rel_length(es.drop_first(), us.drop_first(), rec);
    } else {
        lemma_items_rel_length(es.drop_first(), us, rec);
    }
}

/// The enumeration is complete: it returns exactly one node per kept
/// entry — nothing admissible is dropped and nothing is invented.
pub proof fn lemma_list_directory_complete(es: Seq<RawEntry>, items: Seq<FileItem>, rec: bool)
    requires
        dir_built_with(es, items, rec),
    ensures
        items.len() == kept_count(es),
{
    broadcast use vstd::seq_lib::group_to_multiset_ensures;

    let us = choose|us: Seq<FileItem>|
        {
            &&& #[trigger] items_rel(es, us, rec)
            &&& items.to_multiset() == us.to_multiset()
            &&& sorted_nodes(items)
        };
    lemma_items_rel_length(es, us, rec);
    assert(items.len() == items.to_multiset().len());
    assert(us.len() == us.to_multiset().len());
}

/// Enumerates a directory from its observed entries.
///
/// A root that is not a directory, or whose read failed, is an error;
/// inside the tree, an unreadable subdirectory degrades to absent children.
/// The result at every level holds exactly the kept entries — no hidden
/// name, no ignored directory name, no file off the text whitelist —
/// ordered directories-first and case-insensitively by name.
pub fn list_directory(root: &RootDir, recursive: bool) -> (r: Result<Vec<FileItem>, FsError>)
    ensures
        match *root {
            RootDir::NotADirectory => r matches Err(e) && e is NotADirectory,
            RootDir::ReadFailed(m) => r matches Err(e) && (e matches FsError::Io { message }
                && message@ == m@),
            RootDir::Entries(es) => r matches Ok(items) && dir_built_with(es@, items@, recursive),
        },
{
    match root {
        RootDir::NotADirectory => Err(FsError::NotADirectory),
        RootDir::ReadFailed(m) => Err(FsError::Io { message: m.clone() }),
        RootDir::Entries(es) => Ok(build_items(es, recursive)),
    }
}

} // verus!
