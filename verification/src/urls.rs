//! The handoff URLs the application opens to notify its companion: built
//! from percent-encoded paths and identifiers.

use vstd::prelude::*;
use crate::chartext::{append_vec, chars_of, string_of};

verus! {

/// What `urlencoding::encode` returns for a string. The encoding depends
/// on the characters alone.
pub uninterp spec fn url_encoded(s: Seq<char>) -> Seq<char>;

/// A character that percent-encoding passes through unchanged.
pub open spec fn is_unreserved(c: char) -> bool {
    ||| ('0' <= c && c <= '9')
    ||| ('A' <= c && c <= 'Z')
    ||| ('a' <= c && c <= 'z')
    ||| c == '-'
    ||| c == '.'
    ||| c == '_'
    ||| c == '~'
}

/// Relies on `urlencoding::encode`: percent-encodes every byte except
/// ASCII alphanumerics and `-`, `_`, `.`, `~`, so a string of unreserved
/// characters passes through unchanged.
#[verifier::external_body]
fn encode_component(s: &str) -> (r: String)
    ensures
        r@ == url_encoded(s@),
        (forall|i: int| 0 <= i < s@.len() ==> is_unreserved(#[trigger] s@[i])) ==> r@ == s@,
{
    urlencoding::encode(s).into_owned()
}

/// The URL opened after a note is created or saved: the note's path and
/// identifier, both percent-encoded.
pub fn note_modified_url(path: &str, note_id: &str) -> (r: String)
    ensures
        r@ == "goldocab://note/modified?path="@ + url_encoded(path@) + "&noteID="@ + url_encoded(
            note_id@,
        ),
{
    let ep = encode_component(path);
    let ei = encode_component(note_id);
    let mut out: Vec<char> = Vec::new();
    append_vec(&mut out, &chars_of("goldocab://note/modified?path="));
    append_vec(&mut out, &chars_of(ep.as_str()));
    append_vec(&mut out, &chars_of("&noteID="));
    append_vec(&mut out, &chars_of(ei.as_str()));
    proof {
        assert(out@ =~= "goldocab://note/modified?path="@ + url_encoded(path@) + "&noteID="@
            + url_encoded(note_id@));
    }
    string_of(&out)
}

/// The URL opened after a document export: the output path
/// percent-encoded, the dossier identifier appended verbatim when there
/// is one.
pub fn document_new_url(path: &str, dossier_id: &Option<String>) -> (r: String)
    ensures
        r@ == "goldocab://document/new?path="@ + url_encoded(path@) + "&source=citadelle"@ + (
        match *dossier_id {
            Option::Some(d) => "&dossierID="@ + d@,
            Option::None => Seq::empty(),
        }),
{
    let ep = encode_component(path);
    let mut out: Vec<char> = Vec::new();
    append_vec(&mut out, &chars_of("goldocab://document/new?path="));
    append_vec(&mut out, &chars_of(ep.as_str()));
    append_vec(&mut out, &chars_of("&source=citadelle"));
    match dossier_id {
        Some(d) => {
            append_vec(&mut out, &chars_of("&dossierID="));
            append_vec(&mut out, &chars_of(d.as_str()));
        },
        None => {},
    }
    proof {
        assert(out@ =~= "goldocab://document/new?path="@ + url_encoded(path@)
            + "&source=citadelle"@ + (match *dossier_id {
            Option::Some(d) => "&dossierID="@ + d@,
            Option::None => Seq::<char>::empty(),
        }));
    }
    string_of(&out)
}

} // verus!
