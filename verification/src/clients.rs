//! The read-only client/dossier query layer's data model and its pure
//! helpers: the display name of a client and the pattern a search query
//! becomes.

use vstd::prelude::*;
use crate::chartext::{append_vec, chars_of, eq_str, fold_chars, fold_vec, string_of};
use crate::notes::opt_view;

verus! {

pub struct GoldocabClient {
    pub id: i64,
    pub denomination: Option<String>,
    pub type_client: Option<String>,
    pub telephone: Option<String>,
    pub email: Option<String>,
    pub ville: Option<String>,
    pub code_postal: Option<String>,
    pub statut_client: Option<String>,
    pub nom: Option<String>,
    pub prenom: Option<String>,
    pub civilite: Option<String>,
    pub profession: Option<String>,
    pub forme_juridique: Option<String>,
    pub numero_siren: Option<String>,
}

pub struct GoldocabDossier {
    pub id: i64,
    pub nom: Option<String>,
    pub type_dossier: Option<String>,
    pub client_id: Option<i64>,
    pub client_name: Option<String>,
    pub statut_gestion: Option<String>,
    pub etat: Option<String>,
    pub numero_rg: Option<String>,
    pub juridiction: Option<String>,
    pub date_audience: Option<String>,
    pub priorite: Option<i64>,
    pub est_favori: Option<bool>,
}

pub struct GoldocabItem {
    pub id: i64,
    pub titre: Option<String>,
    pub contexte: Option<String>,
    pub dossier_id: Option<i64>,
    pub est_tache: Option<bool>,
    pub date_echeance: Option<String>,
    pub urgence: Option<i64>,
    pub gtd_phase: Option<String>,
    pub en_cours: Option<bool>,
}

pub struct GoldocabStatus {
    pub available: bool,
    pub database_path: String,
    pub client_count: Option<i64>,
    pub dossier_count: Option<i64>,
}

/// The name a client row is shown under: a legal entity by its
/// denomination; a person by first and last name, whichever are present,
/// falling back to the denomination when neither is.
pub open spec fn display_name_spec(
    nom: Option<Seq<char>>,
    prenom: Option<Seq<char>>,
    denomination: Option<Seq<char>>,
    type_client: Option<Seq<char>>,
) -> Option<Seq<char>> {
    if type_client == Option::Some("PersonneMorale"@) {
        denomination
    } else {
        match (prenom, nom) {
            (Option::Some(p), Option::Some(n)) => Option::Some(p + seq![' '] + n),
            (Option::Some(p), Option::None) => Option::Some(p),
            (Option::None, Option::Some(n)) => Option::Some(n),
            (Option::None, Option::None) => denomination,
        }
    }
}

/// The display name of a client row, per [`display_name_spec`].
pub fn build_client_display_name(
    nom: &Option<String>,
    prenom: &Option<String>,
    denomination: &Option<String>,
    type_client: &Option<String>,
) -> (r: Option<String>)
    ensures
        opt_view(r) == display_name_spec(
            opt_view(*nom),
            opt_view(*prenom),
            opt_view(*denomination),
            opt_view(*type_client),
        ),
{
    let moral = match type_client {
        Some(tc) => {
            let v = chars_of(tc.as_str());
            eq_str(&v, "PersonneMorale")
        },
        None => false,
    };
    if moral {
        match denomination {
            Some(d) => Some(d.clone()),
            None => None,
        }
    } else {
        match (prenom, nom) {
            (Some(p), Some(n)) => {
                let mut out: Vec<char> = Vec::new();
                append_vec(&mut out, &chars_of(p.as_str()));
                out.push(' ');
                append_vec(&mut out, &chars_of(n.as_str()));
                proof {
                    assert(out@ =~= p@ + seq![' '] + n@);
                }
                Some(string_of(&out))
            },
            (Some(p), None) => Some(p.clone()),
            (None, Some(n)) => Some(n.clone()),
            (None, None) => match denomination {
                Some(d) => Some(d.clone()),
                None => None,
            },
        }
    }
}

/// The SQL `LIKE` pattern a search query becomes: the query case-folded,
/// between wildcards.
pub fn like_pattern(query: &str) -> (r: String)
    ensures
        r@ == seq!['%'] + fold_chars(query@) + seq!['%'],
{
    let mut out: Vec<char> = Vec::new();
    out.push('%');
    let f = fold_vec(&chars_of(query));
    append_vec(&mut out, &f);
    out.push('%');
    proof {
        assert(out@ =~= seq!['%'] + fold_chars(query@) + seq!['%']);
    }
    string_of(&out)
}

} // verus!
