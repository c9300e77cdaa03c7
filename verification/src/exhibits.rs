//! The exhibit browser: selecting document files out of one observed
//! directory and ordering them by name.

use vstd::prelude::*;
use vstd::seq_lib::lemma_multiset_commutative;
use vstd::multiset::Multiset;
use crate::chartext::{chars_of, eq_str, fold_chars};
use crate::common::{ext_of, extension_of};
use crate::tree::{lemma_lex_total, lemma_lex_trans, lex_le, RawEntry};

verus! {

/// One exhibit file: its name and its absolute path.
pub struct ExhibitFile {
    pub name: String,
    pub path: String,
}

/// The fixed whitelist of exhibit document extensions, compared
/// case-folded.
pub open spec fn is_exhibit_ext(e: Seq<char>) -> bool {
    ||| e == "pdf"@
    ||| e == "doc"@
    ||| e == "docx"@
    ||| e == "odt"@
    ||| e == "rtf"@
    ||| e == "txt"@
    ||| e == "xls"@
    ||| e == "xlsx"@
    ||| e == "ods"@
    ||| e == "csv"@
    ||| e == "jpg"@
    ||| e == "jpeg"@
    ||| e == "png"@
    ||| e == "gif"@
    ||| e == "tiff"@
    ||| e == "bmp"@
    ||| e == "webp"@
    ||| e == "eml"@
    ||| e == "msg"@
}

/// Whether the exhibit browser includes a file with this path.
pub open spec fn exhibit_file(path: Seq<char>) -> bool {
    match ext_of(path) {
        Option::None => false,
        Option::Some(e) => is_exhibit_ext(fold_chars(e)),
    }
}

/// Whether the exhibit browser includes a file with this path: its
/// extension, case-folded, must be on the exhibit whitelist.
pub fn is_exhibit_file(path: &str) -> (r: bool)
    ensures
        r == exhibit_file(path@),
{
    match extension_of(path) {
        None => false,
        Some(e) => {
            eq_str(&e, "pdf") || eq_str(&e, "doc") || eq_str(&e, "docx") || eq_str(&e, "odt")
                || eq_str(&e, "rtf") || eq_str(&e, "txt") || eq_str(&e, "xls") || eq_str(
                &e,
                "xlsx",
            ) || eq_str(&e, "ods") || eq_str(&e, "csv") || eq_str(&e, "jpg") || eq_str(&e, "jpeg")
                || eq_str(&e, "png") || eq_str(&e, "gif") || eq_str(&e, "tiff") || eq_str(
                &e,
                "bmp",
            ) || eq_str(&e, "webp") || eq_str(&e, "eml") || eq_str(&e, "msg")
        },
    }
}

/// Whether a directory entry appears in the exhibit listing: a file whose
/// extension is on the exhibit whitelist.
pub open spec fn exhibit_kept(e: RawEntry) -> bool {
    match e {
        RawEntry::File { name, path, content } => exhibit_file(path@),
        RawEntry::Dir { name, path, listing } => false,
    }
}

/// Positional relation between observed entries and the listing before
/// ordering.
pub open spec fn exhibits_rel(es: Seq<RawEntry>, us: Seq<ExhibitFile>) -> bool
    decreases es.len(),
{
    if es.len() == 0 {
        us.len() == 0
    } else if exhibit_kept(es[0]) {
        &&& us.len() > 0
        &&& match es[0] {
            RawEntry::File { name, path, content } => us[0].name@ == name@ && us[0].path@
                == path@,
            RawEntry::Dir { name, path, listing } => false,
        }
        &&& exhibits_rel(es.drop_first(), us.drop_first())
    } else {
        exhibits_rel(es.drop_first(), us)
    }
}

/// Exhibit order: case-insensitive name order.
pub open spec fn exhibit_le(a: ExhibitFile, b: ExhibitFile) -> bool {
    lex_le(fold_chars(a.name@), fold_chars(b.name@))
}

pub open spec fn sorted_exhibits(s: Seq<ExhibitFile>) -> bool {
    forall|i: int, j: int| 0 <= i < j < s.len() ==> exhibit_le(#[trigger] s[i], #[trigger] s[j])
}

proof fn lemma_exhibits_rel_push_keep(
    es: Seq<RawEntry>,
    us: Seq<ExhibitFile>,
    e: RawEntry,
    f: ExhibitFile,
)
    requires
        exhibits_rel(es, us),
        exhibit_kept(e),
        (match e {
            RawEntry::File { name, path, content } => f.name@ == name@ && f.path@ == path@,
            RawEntry::Dir { name, path, listing } => false,
        }),
    ensures
        exhibits_rel(es.push(e), us.push(f)),
    decreases es.len(),
{
    if es.len() == 0 {
        assert(es.push(e)[0] == e);
        assert(es.push(e).drop_first() =~= Seq::<RawEntry>::empty());
        assert(us.push(f)[0] == f);
        assert(us.push(f).drop_first() =~= Seq::<ExhibitFile>::empty());
        assert(exhibits_rel(es.push(e).drop_first(), us.push(f).drop_first()));
        assert(exhibits_rel(es.push(e), us.push(f)));
    } else if exhibit_kept(es[0]) {
        lemma_exhibits_rel_push_keep(es.drop_first(), us.drop_first(), e, f);
        assert(es.push(e).drop_first() =~= es.drop_first().push(e));
        assert(us.push(f).drop_first() =~= us.drop_first().push(f));
        assert(es.push(e)[0] == es[0]);
        assert(us.push(f)[0] == us[0]);
        assert(exhibits_rel(es.push(e), us.push(f)));
    } else {
        lemma_exhibits_rel_push_keep(es.drop_first(), us, e, f);
        assert(es.push(e).drop_first() =~= es.drop_first().push(e));
        assert(es.push(e)[0] == es[0]);
        assert(exhibits_rel(es.push(e), us.push(f)));
    }
}

proof fn lemma_exhibits_rel_push_skip(es: Seq<RawEntry>, us: Seq<ExhibitFile>, e: RawEntry)
    requires
        exhibits_rel(es, us),
        !exhibit_kept(e),
    ensures
        exhibits_rel(es.push(e), us),
    decreases es.len(),
{
    if es.len() == 0 {
        assert(es.push(e)[0] == e);
        assert(es.push(e).drop_first() =~= Seq::<RawEntry>::empty());
        assert(exhibits_rel(es.push(e).drop_first(), us));
        assert(exhibits_rel(es.push(e), us));
    } else if exhibit_kept(es[0]) {
        lemma_exhibits_rel_push_skip(es.drop_first(), us.drop_first(), e);
        assert(es.push(e).drop_first() =~= es.drop_first().push(e));
        assert(es.push(e)[0] == es[0]);
        assert(exhibits_rel(es.push(e), us));
    } else {
        lemma_exhibits_rel_push_skip(es.drop_first(), us, e);
        assert(es.push(e).drop_first() =~= es.drop_first().push(e));
        assert(es.push(e)[0] == es[0]);
        assert(exhibits_rel(es.push(e), us));
    }
}

fn le_exhibits(a: &ExhibitFile, b: &ExhibitFile) -> (r: bool)
    ensures
        r == exhibit_le(*a, *b),
{
    crate::tree::lex_le_names_pub(a.name.as_str(), b.name.as_str())
}

fn sort_exhibits(items: &mut Vec<ExhibitFile>)
    ensures
        sorted_exhibits(final(items)@),
        final(items)@.to_multiset() == old(items)@.to_multiset(),
{
    let ghost input = old(items)@;
    let mut out: Vec<ExhibitFile> = Vec::new();
    proof {
        broadcast use vstd::seq_lib::group_to_multiset_ensures;

        assert(out@.to_multiset() =~= Multiset::<ExhibitFile>::empty());
        assert(out@.to_multiset().add(items@.to_multiset()) =~= input.to_multiset());
    }
    loop
        invariant
            input == old(items)@,
            sorted_exhibits(out@),
            out@.to_multiset().add(items@.to_multiset()) == input.to_multiset(),
        decreases items@.len(),
    {
        let ghost pre = items@;
        let popped = items.pop();
        match popped {
            None => {
                proof {
                    broadcast use vstd::seq_lib::group_to_multiset_ensures;

                    assert(items@.to_multiset() =~= Multiset::<ExhibitFile>::empty());
                    assert(out@.to_multiset().add(Multiset::<ExhibitFile>::empty())
                        =~= out@.to_multiset());
                    assert(out@.to_multiset() == input.to_multiset());
                }
                let ghost sorted_view = out@;
                items.append(&mut out);
                proof {
                    assert(items@ =~= sorted_view);
                }
                return ;
            },
            Some(x) => {
                proof {
                    broadcast use vstd::seq_lib::group_to_multiset_ensures;

                    assert(pre =~= items@.push(x));
                    assert(pre.to_multiset() == items@.to_multiset().insert(x));
                }
                let ghost before = out@;
                let mut j: usize = 0;
                while j < out.len() && le_exhibits(&out[j], &x)
                    invariant
                        out@ == before,
                        j <= out@.len(),
                        forall|k: int| 0 <= k < j ==> exhibit_le(#[trigger] out@[k], x),
                    decreases out@.len() - j,
                {
                    j = j + 1;
                }
                proof {
                    if j < out@.len() {
                        lemma_lex_total(fold_chars(out@[j as int].name@), fold_chars(x.name@));
                    }
                }
                out.insert(j, x);
                proof {
                    broadcast use vstd::seq_lib::group_to_multiset_ensures;

                    assert forall|p: int, q: int| 0 <= p < q < out@.len() implies exhibit_le(
                        #[trigger] out@[p],
                        #[trigger] out@[q],
                    ) by {
                        let jj = j as int;
                        if p < jj && q == jj {
                        } else if p == jj && q > jj {
                            assert(before[q - 1] == out@[q]);
                            if q - 1 > jj {
                                lemma_lex_trans(
                                    fold_chars(x.name@),
                                    fold_chars(before[jj].name@),
                                    fold_chars(before[q - 1].name@),
                                );
                            }
                        } else if p < jj && q > jj {
                            assert(out@[p] == before[p] && out@[q] == before[q - 1]);
                        } else if p > jj && q > jj {
                            assert(out@[p] == before[p - 1] && out@[q] == before[q - 1]);
                        }
                    }
                    let jj = j as int;
                    assert(out@ =~= before.take(jj) + seq![x] + before.skip(jj));
                    lemma_multiset_commutative(before.take(jj) + seq![x], before.skip(jj));
                    lemma_multiset_commutative(before.take(jj), seq![x]);
                    assert(seq![x] =~= Seq::<ExhibitFile>::empty().push(x));
                    assert(seq![x].to_multiset() =~= Multiset::<ExhibitFile>::empty().insert(x));
                    assert(before =~= before.take(jj) + before.skip(jj));
                    lemma_multiset_commutative(before.take(jj), before.skip(jj));
                    assert(out@.to_multiset() =~= before.to_multiset().insert(x));
                    assert(before.to_multiset().add(pre.to_multiset()) == input.to_multiset());
                    assert(out@.to_multiset().add(items@.to_multiset()) =~= input.to_multiset());
                }
            },
        }
    }
}

/// Lists the exhibit documents of one observed directory: exactly the
/// files whose extension is on the exhibit whitelist, in case-insensitive
/// name order.
pub fn list_exhibit_files(entries: &Vec<RawEntry>) -> (r: Vec<ExhibitFile>)
    ensures
        exists|us: Seq<ExhibitFile>|
            {
                &&& #[trigger] exhibits_rel(entries@, us)
                &&& r@.to_multiset() == us.to_multiset()
                &&& sorted_exhibits(r@)
            },
{
    let mut us: Vec<ExhibitFile> = Vec::new();
    proof {
        assert(entries@.take(0) =~= Seq::<RawEntry>::empty());
    }
    let mut i: usize = 0;
    while i < entries.len()
        invariant
            i <= entries@.len(),
            exhibits_rel(entries@.take(i as int), us@),
        decreases entries@.len() - i,
    {
        let ghost es_seen = entries@.take(i as int);
        let ghost us_before = us@;
        match &entries[i] {
            RawEntry::File { name, path, content } => {
                if is_exhibit_file(path.as_str()) {
                    let f = ExhibitFile { name: name.clone(), path: path.clone() };
                    proof {
                        lemma_exhibits_rel_push_keep(es_seen, us_before, entries@[i as int], f);
                    }
                    us.push(f);
                } else {
                    proof {
                        lemma_exhibits_rel_push_skip(es_seen, us_before, entries@[i as int]);
                    }
                }
            },
            RawEntry::Dir { name, path, listing } => {
                proof {
                    lemma_exhibits_rel_push_skip(es_seen, us_before, entries@[i as int]);
                }
            },
        }
        proof {
            assert(entries@.take(i + 1) =~= es_seen.push(entries@[i as int]));
        }
        i = i + 1;
    }
    proof {
        assert(entries@.take(entries@.len() as int) =~= entries@);
    }
    let ghost us_view = us@;
    sort_exhibits(&mut us);
    proof {
        assert(exhibits_rel(entries@, us_view));
        assert(us@.to_multiset() == us_view.to_multiset());
        assert(sorted_exhibits(us@));
    }
    us
}

} // verus!
