//! Edit-session handoff bookkeeping: the session record, the file names it
//! is kept under, and its status transitions. Reading and writing the
//! files happens outside the crate.

use vstd::prelude::*;
use crate::chartext::{append_vec, chars_of, eq_str, hex_rec, string_of, u64_to_hex};
use crate::notes::opt_view;

verus! {

/// One handoff edit session.
pub struct GoldocabEditSession {
    pub session_id: String,
    pub original_path: String,
    pub working_path: String,
    pub dossier_id: Option<String>,
    pub dossier_name: Option<String>,
    pub created_at: String,
    pub status: String,
}

/// What completing a session reports.
pub struct GoldocabSessionResult {
    pub session_id: String,
    pub final_path: String,
    pub was_modified: bool,
}

/// A session identifier from a millisecond clock reading: its lowercase
/// hexadecimal numeral.
pub fn session_id_from_millis(millis: u64) -> (r: String)
    ensures
        r@ == hex_rec(millis as nat),
{
    u64_to_hex(millis)
}

/// The file a session is kept under.
pub fn session_file_name(session_id: &str) -> (r: String)
    ensures
        r@ == session_id@ + ".session.json"@,
{
    let mut out: Vec<char> = Vec::new();
    append_vec(&mut out, &chars_of(session_id));
    append_vec(&mut out, &chars_of(".session.json"));
    proof {
        assert(out@ =~= session_id@ + ".session.json"@);
    }
    string_of(&out)
}

/// The marker file a completed session leaves.
pub fn done_file_name(session_id: &str) -> (r: String)
    ensures
        r@ == session_id@ + ".done"@,
{
    let mut out: Vec<char> = Vec::new();
    append_vec(&mut out, &chars_of(session_id));
    append_vec(&mut out, &chars_of(".done"));
    proof {
        assert(out@ =~= session_id@ + ".done"@);
    }
    string_of(&out)
}

/// The sidecar metadata file of an exported document.
pub fn meta_file_name(file_name: &str) -> (r: String)
    ensures
        r@ == file_name@ + ".meta.json"@,
{
    let mut out: Vec<char> = Vec::new();
    append_vec(&mut out, &chars_of(file_name));
    append_vec(&mut out, &chars_of(".meta.json"));
    proof {
        assert(out@ =~= file_name@ + ".meta.json"@);
    }
    string_of(&out)
}

/// A freshly started session: both paths at the edited file, active.
pub fn new_session(
    file_path: &str,
    dossier_id: &Option<String>,
    dossier_name: &Option<String>,
    session_id: &str,
    created_at: &str,
) -> (r: GoldocabEditSession)
    ensures
        r.session_id@ == session_id@,
        r.original_path@ == file_path@,
        r.working_path@ == file_path@,
        opt_view(r.dossier_id) == opt_view(*dossier_id),
        opt_view(r.dossier_name) == opt_view(*dossier_name),
        r.created_at@ == created_at@,
        r.status@ == "active"@,
{
    GoldocabEditSession {
        session_id: session_id.to_owned(),
        original_path: file_path.to_owned(),
        working_path: file_path.to_owned(),
        dossier_id: clone_opt_string(dossier_id),
        dossier_name: clone_opt_string(dossier_name),
        created_at: created_at.to_owned(),
        status: "active".to_owned(),
    }
}

fn clone_opt_string(o: &Option<String>) -> (r: Option<String>)
    ensures
        opt_view(r) == opt_view(*o),
{
    match o {
        Some(s) => Some(s.clone()),
        None => None,
    }
}

/// Marks a session completed; every other field stays.
pub fn mark_completed(s: &mut GoldocabEditSession)
    ensures
        final(s).status@ == "completed"@,
        final(s).session_id == old(s).session_id,
        final(s).original_path == old(s).original_path,
        final(s).working_path == old(s).working_path,
        final(s).dossier_id == old(s).dossier_id,
        final(s).dossier_name == old(s).dossier_name,
        final(s).created_at == old(s).created_at,
{
    s.status = "completed".to_owned();
}

/// Marks a session cancelled; every other field stays.
pub fn mark_cancelled(s: &mut GoldocabEditSession)
    ensures
        final(s).status@ == "cancelled"@,
        final(s).session_id == old(s).session_id,
        final(s).original_path == old(s).original_path,
        final(s).working_path == old(s).working_path,
        final(s).dossier_id == old(s).dossier_id,
        final(s).dossier_name == old(s).dossier_name,
        final(s).created_at == old(s).created_at,
{
    s.status = "cancelled".to_owned();
}

/// Whether the session listing includes this session.
pub fn is_active(s: &GoldocabEditSession) -> (r: bool)
    ensures
        r == (s.status@ == "active"@),
{
    let v = chars_of(s.status.as_str());
    eq_str(&v, "active")
}

} // verus!
