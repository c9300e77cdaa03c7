//! Character and string groundwork shared by the gateway.
//!
//! All text handling in this crate is in units of characters: a `String` is
//! its sequence of `char`s, columns and context windows count characters,
//! and case folding maps one character to one character, so offsets computed
//! on folded text are valid in the original text.

use vstd::prelude::*;

verus! {

/// ASCII lower-casing of one character. Folding is deliberately
/// ASCII-only: it never changes a character's position, which keeps
/// column accounting on folded text exact.
pub open spec fn lower_char(c: char) -> char {
    if 'A' <= c && c <= 'Z' {
        ((c as u32) + 32) as char
    } else {
        c
    }
}

/// Case folding of a character sequence.
pub open spec fn fold_chars(s: Seq<char>) -> Seq<char> {
    s.map_values(|c: char| lower_char(c))
}

/// ASCII whitespace. Trimming and blank-detection go by this set.
pub open spec fn is_space(c: char) -> bool {
    c == ' ' || c == '\t' || c == '\n' || c == '\r' || c as u32 == 0x0b || c as u32 == 0x0c
}

/// A sequence that holds nothing but whitespace.
pub open spec fn all_space(s: Seq<char>) -> bool {
    forall|i: int| 0 <= i < s.len() ==> is_space(#[trigger] s[i])
}

pub fn to_lower(c: char) -> (r: char)
    ensures
        r == lower_char(c),
{
    let u = c as u32;
    if 65 <= u && u <= 90 {
        ((u + 32) as u8) as char
    } else {
        c
    }
}

pub fn is_space_char(c: char) -> (r: bool)
    ensures
        r == is_space(c),
{
    let u = c as u32;
    c == ' ' || c == '\t' || c == '\n' || c == '\r' || u == 0x0b || u == 0x0c
}

/// The characters of a string slice, in order.
pub fn chars_of(s: &str) -> (v: Vec<char>)
    ensures
        v@ == s@,
{
    let n = s.unicode_len();
    let mut v: Vec<char> = Vec::new();
    let mut i: usize = 0;
    while i < n
        invariant
            n == s@.len(),
            i <= n,
            v@ == s@.take(i as int),
        decreases n - i,
    {
        v.push(s.get_char(i));
        proof {
            assert(v@ =~= s@.take(i + 1));
        }
        i = i + 1;
    }
    proof {
        assert(v@ =~= s@);
    }
    v
}

/// Relies on `String::push`: appends exactly the given character.
#[verifier::external_body]
pub(crate) fn push_char(s: &mut String, c: char)
    ensures
        final(s)@ == old(s)@.push(c),
{
    s.push(c);
}

/// A `String` holding exactly the given characters.
pub fn string_of(v: &Vec<char>) -> (s: String)
    ensures
        s@ == v@,
{
    let mut s = String::new();
    let mut i: usize = 0;
    while i < v.len()
        invariant
            i <= v@.len(),
            s@ == v@.take(i as int),
        decreases v@.len() - i,
    {
        push_char(&mut s, v[i]);
        proof {
            assert(s@ =~= v@.take(i + 1));
        }
        i = i + 1;
    }
    proof {
        assert(s@ =~= v@);
    }
    s
}

/// Index of the last occurrence of `c` in `s`, or -1 if there is none.
pub open spec fn last_index_of(s: Seq<char>, c: char) -> int
    decreases s.len(),
{
    if s.len() == 0 {
        -1
    } else if s.last() == c {
        s.len() - 1
    } else {
        last_index_of(s.drop_last(), c)
    }
}

/// Case folding of a character vector.
pub fn fold_vec(v: &Vec<char>) -> (r: Vec<char>)
    ensures
        r@ == fold_chars(v@),
{
    let mut r: Vec<char> = Vec::new();
    let mut i: usize = 0;
    while i < v.len()
        invariant
            i <= v@.len(),
            r@ == fold_chars(v@.take(i as int)),
        decreases v@.len() - i,
    {
        r.push(to_lower(v[i]));
        proof {
            assert(r@ =~= fold_chars(v@.take(i + 1)));
        }
        i = i + 1;
    }
    proof {
        assert(v@.take(v@.len() as int) =~= v@);
    }
    r
}

/// The characters of `v` from `from` (inclusive) to `to` (exclusive).
pub fn sub_vec(v: &Vec<char>, from: usize, to: usize) -> (r: Vec<char>)
    requires
        from <= to <= v@.len(),
    ensures
        r@ == v@.subrange(from as int, to as int),
{
    let mut r: Vec<char> = Vec::new();
    let mut i: usize = from;
    while i < to
        invariant
            from <= i <= to <= v@.len(),
            r@ == v@.subrange(from as int, i as int),
        decreases to - i,
    {
        r.push(v[i]);
        proof {
            assert(r@ =~= v@.subrange(from as int, i + 1));
        }
        i = i + 1;
    }
    r
}

/// Appends all characters of `src` to `dst`.
pub fn append_vec(dst: &mut Vec<char>, src: &Vec<char>)
    ensures
        final(dst)@ == old(dst)@ + src@,
{
    let ghost start = dst@;
    let mut i: usize = 0;
    while i < src.len()
        invariant
            i <= src@.len(),
            dst@ == start + src@.take(i as int),
        decreases src@.len() - i,
    {
        dst.push(src[i]);
        proof {
            assert(dst@ =~= start + src@.take(i + 1));
        }
        i = i + 1;
    }
    proof {
        assert(dst@ =~= start + src@);
    }
}

/// The character for one digit value, digits beyond 9 as lowercase letters.
pub open spec fn digit_char(d: int) -> char {
    if d < 10 {
        ((48 + d) as char)
    } else {
        ((87 + d) as char)
    }
}

/// The decimal numeral of `n`, without leading zeros.
pub open spec fn dec_rec(n: nat) -> Seq<char>
    decreases n,
{
    if n < 10 {
        seq![digit_char(n as int)]
    } else {
        dec_rec(n / 10).push(digit_char((n % 10) as int))
    }
}

/// The lowercase hexadecimal numeral of `n`, without leading zeros.
pub open spec fn hex_rec(n: nat) -> Seq<char>
    decreases n,
{
    if n < 16 {
        seq![digit_char(n as int)]
    } else {
        hex_rec(n / 16).push(digit_char((n % 16) as int))
    }
}

pub(crate) fn digit_to_char(d: u64) -> (r: char)
    requires
        d < 16,
    ensures
        r == digit_char(d as int),
{
    if d < 10 {
        (48 + d as u8) as char
    } else {
        (87 + d as u8) as char
    }
}

/// `v` in reverse order.
pub fn reversed(v: &Vec<char>) -> (r: Vec<char>)
    ensures
        r@ == v@.reverse(),
{
    let mut r: Vec<char> = Vec::new();
    let mut j: usize = v.len();
    while j > 0
        invariant
            j <= v@.len(),
            r@.len() == v@.len() - j,
            forall|k: int| 0 <= k < r@.len() ==> r@[k] == v@[v@.len() - 1 - k],
        decreases j,
    {
        r.push(v[j - 1]);
        j = j - 1;
    }
    proof {
        assert(r@ =~= v@.reverse());
    }
    r
}

pub(crate) fn u64_to_radix(n: u64, hex: bool) -> (r: Vec<char>)
    ensures
        hex ==> r@ == hex_rec(n as nat),
        !hex ==> r@ == dec_rec(n as nat),
{
    let base: u64 = if hex {
        16
    } else {
        10
    };
    let mut m = n;
    let mut digits: Vec<char> = Vec::new();
    if m == 0 {
        digits.push('0');
        proof {
            assert(digit_char(0) == '0');
            assert(digits@ =~= hex_rec(0));
            assert(digits@ =~= dec_rec(0));
        }
        return digits;
    }
    while m > 0
        invariant
            base == if hex { 16u64 } else { 10u64 },
            m == 0 ==> digits@.len() > 0,
            hex ==> hex_rec(n as nat) == if m > 0 {
                hex_rec(m as nat) + digits@.reverse()
            } else {
                digits@.reverse()
            },
            !hex ==> dec_rec(n as nat) == if m > 0 {
                dec_rec(m as nat) + digits@.reverse()
            } else {
                digits@.reverse()
            },
        decreases m,
    {
        let ghost m_old = m as nat;
        let ghost old_digits = digits@;
        let d = m % base;
        digits.push(digit_to_char(d));
        m = m / base;
        proof {
            let c = digit_char(d as int);
            assert(digits@.reverse() =~= seq![c] + old_digits.reverse());
            if hex {
                if m > 0 {
                    assert(hex_rec(m_old) == hex_rec(m_old / 16).push(c));
                    assert(hex_rec(m_old / 16).push(c) =~= hex_rec(m_old / 16) + seq![c]);
                    assert(hex_rec(m_old) + old_digits.reverse() =~= hex_rec(m as nat) + (seq![c]
                        + old_digits.reverse()));
                } else {
                    assert(m_old < 16);
                    assert(hex_rec(m_old) =~= seq![c]);
                    assert(hex_rec(m_old) + old_digits.reverse() =~= seq![c]
                        + old_digits.reverse());
                }
            } else {
                if m > 0 {
                    assert(dec_rec(m_old) == dec_rec(m_old / 10).push(c));
                    assert(dec_rec(m_old / 10).push(c) =~= dec_rec(m_old / 10) + seq![c]);
                    assert(dec_rec(m_old) + old_digits.reverse() =~= dec_rec(m as nat) + (seq![c]
                        + old_digits.reverse()));
                } else {
                    assert(m_old < 10);
                    assert(dec_rec(m_old) =~= seq![c]);
                    assert(dec_rec(m_old) + old_digits.reverse() =~= seq![c]
                        + old_digits.reverse());
                }
            }
        }
    }
    reversed(&digits)
}

/// The decimal numeral of `n`.
pub fn u64_to_dec(n: u64) -> (r: String)
    ensures
        r@ == dec_rec(n as nat),
{
    let v = u64_to_radix(n, false);
    string_of(&v)
}

/// The lowercase hexadecimal numeral of `n`.
pub fn u64_to_hex(n: u64) -> (r: String)
    ensures
        r@ == hex_rec(n as nat),
{
    let v = u64_to_radix(n, true);
    string_of(&v)
}

/// Character-wise equality of a character vector and a string slice.
pub fn eq_str(v: &Vec<char>, s: &str) -> (r: bool)
    ensures
        r == (v@ == s@),
{
    let n = s.unicode_len();
    if v.len() != n {
        proof {
            assert(v@ != s@);
        }
        return false;
    }
    let mut i: usize = 0;
    while i < n
        invariant
            n == s@.len(),
            v@.len() == n,
            i <= n,
            forall|j: int| 0 <= j < i ==> v@[j] == s@[j],
        decreases n - i,
    {
        if v[i] != s.get_char(i) {
            proof {
                assert(v@ != s@);
            }
            return false;
        }
        i = i + 1;
    }
    proof {
        assert(v@ =~= s@);
    }
    true
}

/// The needle occurs in the haystack at position `p`.
pub open spec fn match_at(hay: Seq<char>, needle: Seq<char>, p: int) -> bool {
    0 <= p && p + needle.len() <= hay.len() && hay.subrange(p, p + needle.len()) == needle
}

/// The first position at or after `from` where the needle occurs.
pub open spec fn find_from(hay: Seq<char>, needle: Seq<char>, from: int) -> Option<int>
    decreases hay.len() + 1 - from
        when 0 <= from <= hay.len() + 1
{
    if from + needle.len() > hay.len() {
        Option::None
    } else if match_at(hay, needle, from) {
        Option::Some(from)
    } else {
        find_from(hay, needle, from + 1)
    }
}

/// A found position lies between `from` and the end of the haystack.
pub proof fn lemma_find_from_bounds(hay: Seq<char>, needle: Seq<char>, from: int)
    requires
        0 <= from <= hay.len() + 1,
    ensures
        match find_from(hay, needle, from) {
            Option::Some(p) => from <= p && p + needle.len() <= hay.len() && match_at(
                hay,
                needle,
                p,
            ),
            Option::None => true,
        },
    decreases hay.len() + 1 - from,
{
    if from + needle.len() > hay.len() {
    } else if match_at(hay, needle, from) {
    } else {
        lemma_find_from_bounds(hay, needle, from + 1);
    }
}

/// Character-wise equality of two character vectors.
pub fn eq_vecs(a: &Vec<char>, b: &Vec<char>) -> (r: bool)
    ensures
        r == (a@ == b@),
{
    if a.len() != b.len() {
        proof {
            assert(a@ != b@);
        }
        return false;
    }
    let mut i: usize = 0;
    while i < a.len()
        invariant
            a@.len() == b@.len(),
            i <= a@.len(),
            forall|j: int| 0 <= j < i ==> a@[j] == b@[j],
        decreases a@.len() - i,
    {
        if a[i] != b[i] {
            proof {
                assert(a@ != b@);
            }
            return false;
        }
        i = i + 1;
    }
    proof {
        assert(a@ =~= b@);
    }
    true
}

fn window_eq(hay: &Vec<char>, needle: &Vec<char>, p: usize) -> (r: bool)
    requires
        p + needle@.len() <= hay@.len(),
    ensures
        r == match_at(hay@, needle@, p as int),
{
    let hlen = hay.len();
    let mut k: usize = 0;
    while k < needle.len()
        invariant
            p + needle@.len() <= hay@.len(),
            hlen == hay@.len(),
            k <= needle@.len(),
            forall|j: int| 0 <= j < k ==> hay@[p + j] == needle@[j],
        decreases needle@.len() - k,
    {
        if hay[p + k] != needle[k] {
            proof {
                assert(hay@.subrange(p as int, p + needle@.len())[k as int] != needle@[k as int]);
            }
            return false;
        }
        k = k + 1;
    }
    proof {
        assert(hay@.subrange(p as int, p + needle@.len()) =~= needle@);
    }
    true
}

/// The first occurrence of the needle at or after `from`, per
/// [`find_from`].
pub fn find_vec(hay: &Vec<char>, needle: &Vec<char>, from: usize) -> (r: Option<usize>)
    requires
        from <= hay@.len(),
        needle@.len() >= 1,
    ensures
        match r {
            Option::Some(p) => find_from(hay@, needle@, from as int) == Option::Some(p as int),
            Option::None => find_from(hay@, needle@, from as int) is None,
        },
{
    if needle.len() > hay.len() {
        return None;
    }
    let hlen = hay.len();
    let last = hlen - needle.len();
    let mut p = from;
    if p > last {
        return None;
    }
    while p <= last
        invariant
            hlen == hay@.len(),
            needle@.len() >= 1,
            needle@.len() <= hay@.len(),
            last == hay@.len() - needle@.len(),
            from <= p <= last + 1,
            find_from(hay@, needle@, from as int) == find_from(hay@, needle@, p as int),
        decreases last + 1 - p,
    {
        if window_eq(hay, needle, p) {
            return Some(p);
        }
        p = p + 1;
    }
    None
}

/// `s` without one trailing carriage return.
pub open spec fn strip_cr(l: Seq<char>) -> Seq<char> {
    if l.len() > 0 && l.last() == '\r' {
        l.drop_last()
    } else {
        l
    }
}

/// The lines of `s` from position `start` on: split at each newline, with a
/// carriage return before a newline removed, and a final segment without a
/// trailing newline kept as it stands.
pub open spec fn lines_from(s: Seq<char>, start: int) -> Seq<Seq<char>>
    decreases s.len() - start
        when 0 <= start <= s.len() via lines_from_decreases
{
    if start >= s.len() {
        Seq::empty()
    } else {
        match find_from(s, seq!['\n'], start) {
            Option::Some(i) => seq![strip_cr(s.subrange(start, i))] + lines_from(s, i + 1),
            Option::None => seq![s.skip(start)],
        }
    }
}

#[via_fn]
proof fn lines_from_decreases(s: Seq<char>, start: int) {
    lemma_find_from_bounds(s, seq!['\n'], start);
}

/// The lines of a text, as `str::lines` reads them.
pub open spec fn lines_of(s: Seq<char>) -> Seq<Seq<char>> {
    lines_from(s, 0)
}

/// Splits a text into its lines, per [`lines_of`].
pub fn split_lines(content: &Vec<char>) -> (r: Vec<Vec<char>>)
    ensures
        r@.map_values(|l: Vec<char>| l@) == lines_of(content@),
{
    let r = split_lines_from(content, 0);
    r
}

fn split_lines_from(content: &Vec<char>, start: usize) -> (r: Vec<Vec<char>>)
    requires
        start <= content@.len(),
    ensures
        r@.map_values(|l: Vec<char>| l@) == lines_from(content@, start as int),
    decreases content@.len() - start,
{
    let nl: Vec<char> = vec!['\n'];
    proof {
        assert(nl@ =~= seq!['\n']);
    }
    if start >= content.len() {
        let r: Vec<Vec<char>> = Vec::new();
        proof {
            assert(r@.map_values(|l: Vec<char>| l@) =~= lines_from(content@, start as int));
        }
        return r;
    }
    match find_vec(content, &nl, start) {
        Some(i) => {
            proof {
                lemma_find_from_bounds(content@, seq!['\n'], start as int);
            }
            let mut line = sub_vec(content, start, i);
            if line.len() > 0 && line[line.len() - 1] == '\r' {
                let ghost before = line@;
                line.pop();
                proof {
                    assert(line@ =~= strip_cr(before));
                }
            }
            proof {
                assert(line@ == strip_cr(content@.subrange(start as int, i as int)));
            }
            let mut rest = split_lines_from(content, i + 1);
            let ghost rest_view = rest@;
            rest.insert(0, line);
            proof {
                assert(rest@.map_values(|l: Vec<char>| l@) =~= seq![
                    strip_cr(content@.subrange(start as int, i as int)),
                ] + rest_view.map_values(|l: Vec<char>| l@));
            }
            rest
        },
        None => {
            let line = sub_vec(content, start, content.len());
            let mut r: Vec<Vec<char>> = Vec::new();
            r.push(line);
            proof {
                assert(content@.subrange(start as int, content@.len() as int) =~= content@.skip(
                    start as int,
                ));
                assert(r@.map_values(|l: Vec<char>| l@) =~= seq![content@.skip(start as int)]);
            }
            r
        },
    }
}

/// `s` without leading whitespace.
pub open spec fn trim_start_spec(s: Seq<char>) -> Seq<char>
    decreases s.len(),
{
    if s.len() > 0 && is_space(s[0]) {
        trim_start_spec(s.drop_first())
    } else {
        s
    }
}

/// `s` without trailing whitespace.
pub open spec fn trim_end_spec(s: Seq<char>) -> Seq<char>
    decreases s.len(),
{
    if s.len() > 0 && is_space(s.last()) {
        trim_end_spec(s.drop_last())
    } else {
        s
    }
}

/// `s` without leading and trailing whitespace.
pub open spec fn trim_spec(s: Seq<char>) -> Seq<char> {
    trim_end_spec(trim_start_spec(s))
}

/// Trims leading and trailing whitespace, per [`trim_spec`].
pub fn trim_vec(v: &Vec<char>) -> (r: Vec<char>)
    ensures
        r@ == trim_spec(v@),
{
    proof {
        assert(v@.skip(0) =~= v@);
    }
    let mut a: usize = 0;
    while a < v.len() && is_space_char(v[a])
        invariant
            a <= v@.len(),
            trim_start_spec(v@) == trim_start_spec(v@.skip(a as int)),
        decreases v@.len() - a,
    {
        proof {
            let t = v@.skip(a as int);
            assert(t[0] == v@[a as int]);
            assert(t.drop_first() =~= v@.skip(a + 1));
        }
        a = a + 1;
    }
    let ghost stripped = trim_start_spec(v@);
    proof {
        let t = v@.skip(a as int);
        if t.len() > 0 {
            assert(t[0] == v@[a as int]);
        }
        assert(stripped == v@.skip(a as int));
        assert(stripped.take(stripped.len() as int) =~= stripped);
    }
    let mut b: usize = v.len();
    while b > a && is_space_char(v[b - 1])
        invariant
            a <= b <= v@.len(),
            stripped == v@.skip(a as int),
            trim_end_spec(stripped) == trim_end_spec(stripped.take(b - a)),
        decreases b,
    {
        proof {
            let t = stripped.take(b - a);
            assert(t.last() == v@[b - 1]);
            assert(t.drop_last() =~= stripped.take(b - 1 - a));
        }
        b = b - 1;
    }
    proof {
        let t = stripped.take(b - a);
        if t.len() > 0 {
            assert(t.last() == v@[b - 1]);
        }
        assert(trim_end_spec(stripped) == t);
        assert(v@.subrange(a as int, b as int) =~= stripped.take(b - a));
    }
    sub_vec(v, a, b)
}

} // verus!
