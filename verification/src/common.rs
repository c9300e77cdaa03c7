//! Shared helpers of the command surface: entry identifiers, the text-file
//! whitelist, and the epoch-seconds timestamp.

use vstd::prelude::*;
use crate::chartext::{
    chars_of, dec_rec, eq_str, fold_chars, fold_vec, hex_rec, last_index_of, sub_vec, u64_to_dec,
    u64_to_hex,
};
use crate::guard::{file_name_of, file_name_vec};

verus! {

pub const FNV_OFFSET: u64 = 0xcbf29ce484222325;

pub const FNV_PRIME: u64 = 0x100000001b3;

/// The 64-bit FNV-1a hash of a character sequence, each character taken as
/// its Unicode scalar value.
pub open spec fn fnv1a(s: Seq<char>) -> u64
    decreases s.len(),
{
    if s.len() == 0 {
        FNV_OFFSET
    } else {
        u64::wrapping_mul(fnv1a(s.drop_last()) ^ (s.last() as u64), FNV_PRIME)
    }
}

/// The deterministic identifier of an entry: the lowercase hexadecimal
/// numeral of the FNV-1a hash of its absolute path. Non-cryptographic;
/// collisions are theoretically possible and not defended against.
pub open spec fn id_of(path: Seq<char>) -> Seq<char> {
    hex_rec(fnv1a(path) as nat)
}

/// Deterministic, non-cryptographic identifier for a path.
pub fn generate_id(path: &str) -> (r: String)
    ensures
        r@ == id_of(path@),
{
    let v = chars_of(path);
    let mut h: u64 = FNV_OFFSET;
    let mut i: usize = 0;
    while i < v.len()
        invariant
            i <= v@.len(),
            h == fnv1a(v@.take(i as int)),
        decreases v@.len() - i,
    {
        h = (h ^ (v[i] as u64)).wrapping_mul(FNV_PRIME);
        proof {
            assert(v@.take(i + 1).drop_last() =~= v@.take(i as int));
        }
        i = i + 1;
    }
    proof {
        assert(v@.take(v@.len() as int) =~= v@);
    }
    u64_to_hex(h)
}

/// The extension of a path: what follows the last `.` of its final
/// component. A final component without a `.`, or whose only `.` is its
/// leading character (a hidden file), has none.
pub open spec fn ext_of(path: Seq<char>) -> Option<Seq<char>> {
    let name = file_name_of(path);
    let d = last_index_of(name, '.');
    if d <= 0 {
        Option::None
    } else {
        Option::Some(name.skip(d + 1))
    }
}

/// The fixed whitelist of recognized text and document extensions, compared
/// case-folded.
pub open spec fn is_text_ext(e: Seq<char>) -> bool {
    ||| e == "md"@
    ||| e == "markdown"@
    ||| e == "txt"@
    ||| e == "text"@
    ||| e == "json"@
    ||| e == "yaml"@
    ||| e == "yml"@
    ||| e == "toml"@
    ||| e == "xml"@
    ||| e == "html"@
    ||| e == "css"@
    ||| e == "js"@
    ||| e == "ts"@
    ||| e == "jsx"@
    ||| e == "tsx"@
    ||| e == "rs"@
    ||| e == "py"@
    ||| e == "rb"@
    ||| e == "go"@
    ||| e == "swift"@
    ||| e == "c"@
    ||| e == "cpp"@
    ||| e == "h"@
    ||| e == "hpp"@
    ||| e == "java"@
    ||| e == "kt"@
    ||| e == "sh"@
    ||| e == "bash"@
    ||| e == "zsh"@
    ||| e == "fish"@
}

/// Whether the tree view includes a file with this path.
pub open spec fn text_file(path: Seq<char>) -> bool {
    match ext_of(path) {
        Option::None => false,
        Option::Some(e) => is_text_ext(fold_chars(e)),
    }
}

/// The case-folded extension of a path, when it has one.
pub fn extension_of(path: &str) -> (r: Option<Vec<char>>)
    ensures
        match r {
            Option::Some(e) => ext_of(path@) matches Option::Some(s) && e@ == fold_chars(s),
            Option::None => ext_of(path@) is None,
        },
{
    let raw = chars_of(path);
    let name = file_name_vec(&raw);
    proof {
        assert(name@.take(name@.len() as int) =~= name@);
    }
    let mut i: usize = name.len();
    while i > 0 && name[i - 1] != '.'
        invariant
            i <= name@.len(),
            last_index_of(name@, '.') == last_index_of(name@.take(i as int), '.'),
        decreases i,
    {
        proof {
            let t = name@.take(i as int);
            assert(t.last() == name@[i - 1]);
            assert(t.drop_last() =~= name@.take(i - 1));
        }
        i = i - 1;
    }
    proof {
        if i > 0 {
            let t = name@.take(i as int);
            assert(t.last() == name@[i - 1]);
            assert(last_index_of(name@, '.') == i - 1);
        } else {
            assert(name@.take(0) =~= Seq::<char>::empty());
            assert(last_index_of(name@, '.') == -1);
        }
    }
    if i <= 1 {
        return None;
    }
    let e = sub_vec(&name, i, name.len());
    proof {
        assert(name@.subrange(i as int, name@.len() as int) =~= name@.skip(i as int));
    }
    Some(fold_vec(&e))
}

/// Whether the tree view includes a file with this path: its extension,
/// case-folded, must be on the fixed text whitelist.
pub fn is_text_file(path: &str) -> (r: bool)
    ensures
        r == text_file(path@),
{
    match extension_of(path) {
        None => false,
        Some(e) => {
            eq_str(&e, "md") || eq_str(&e, "markdown") || eq_str(&e, "txt") || eq_str(&e, "text")
                || eq_str(&e, "json") || eq_str(&e, "yaml") || eq_str(&e, "yml") || eq_str(
                &e,
                "toml",
            ) || eq_str(&e, "xml") || eq_str(&e, "html") || eq_str(&e, "css") || eq_str(&e, "js")
                || eq_str(&e, "ts") || eq_str(&e, "jsx") || eq_str(&e, "tsx") || eq_str(&e, "rs")
                || eq_str(&e, "py") || eq_str(&e, "rb") || eq_str(&e, "go") || eq_str(&e, "swift")
                || eq_str(&e, "c") || eq_str(&e, "cpp") || eq_str(&e, "h") || eq_str(&e, "hpp")
                || eq_str(&e, "java") || eq_str(&e, "kt") || eq_str(&e, "sh") || eq_str(&e, "bash")
                || eq_str(&e, "zsh") || eq_str(&e, "fish")
        },
    }
}

/// Relies on `std::time::SystemTime::now` and the duration since the Unix
/// epoch: a clock reading, taken as whole seconds. Nothing is assumed of
/// its value; a clock before the epoch reads as zero.
#[verifier::external_body]
pub(crate) fn epoch_seconds_now() -> u64 {
    match std::time::SystemTime::now().duration_since(std::time::UNIX_EPOCH) {
        Ok(d) => d.as_secs(),
        Err(_) => 0,
    }
}

/// The current timestamp as seconds since the Unix epoch, in decimal.
pub fn chrono_now() -> (r: String)
    ensures
        exists|n: u64| r@ == dec_rec(n as nat),
{
    let secs = epoch_seconds_now();
    let r = u64_to_dec(secs);
    proof {
        assert(r@ == dec_rec(secs as nat));
    }
    r
}

} // verus!
