//! Byte-level text helpers: ASCII case folding, SQL-style `LIKE` matching,
//! substring search and boolean parsing.
//!
//! All catalog names are UTF-8 strings; the helpers here work on their byte
//! encodings, which keeps the executable code close to the specifications.
use vstd::prelude::*;

verus! {

use vstd::slice::slice_index_get;
use vstd::string::StringSliceAdditionalSpecFns;

/// Lowercases one ASCII byte; every other byte is left unchanged.
pub open spec fn lower_byte(b: u8) -> u8 {
    if 65 <= b && b <= 90 {
        (b + 32) as u8
    } else {
        b
    }
}

/// Lowercases a byte sequence ASCII-wise.
pub open spec fn lower_bytes(s: Seq<u8>) -> Seq<u8> {
    s.map_values(|b: u8| lower_byte(b))
}

/// One ASCII letter or digit.
pub open spec fn alnum_byte(b: u8) -> bool {
    (48 <= b && b <= 57) || (65 <= b && b <= 90) || (97 <= b && b <= 122)
}

/// One lowercase hex digit.
pub open spec fn hex_char(c: char) -> bool {
    ('0' <= c && c <= '9') || ('a' <= c && c <= 'f')
}

/// ASCII-lowercases every byte of a byte vector.
pub fn ascii_lower(v: &Vec<u8>) -> (r: Vec<u8>)
    ensures
        r@ == lower_bytes(v@),
{
    let mut r: Vec<u8> = Vec::new();
    let mut i: usize = 0;
    while i < v.len()
        invariant
            i <= v@.len(),
            r@ == lower_bytes(v@).take(i as int),
        decreases v@.len() - i,
    {
        let b = v[i];
        if 65 <= b && b <= 90 {
            r.push(b + 32);
        } else {
            r.push(b);
        }
        assert(lower_bytes(v@).take(i + 1)
            == lower_bytes(v@).take(i as int).push(lower_byte(v@[i as int])));
        i += 1;
    }
    assert(lower_bytes(v@).take(v@.len() as int) == lower_bytes(v@));
    r
}

/// Byte-wise equality of a vector and a slice.
pub fn bytes_eq(a: &[u8], b: &[u8]) -> (r: bool)
    ensures
        r == (a@ == b@),
{
    if a.len() != b.len() {
        assert(a@.len() != b@.len());
        return false;
    }
    let mut i: usize = 0;
    while i < a.len()
        invariant
            i <= a@.len(),
            a@.len() == b@.len(),
            forall|j: int| 0 <= j < i ==> a@[j] == b@[j],
        decreases a@.len() - i,
    {
        if *slice_index_get(a, i) != *slice_index_get(b, i) {
            return false;
        }
        i += 1;
    }
    assert(a@ =~= b@);
    true
}

/// SQL `ILIKE` semantics over bytes: `%` matches any run of bytes, `_` any
/// single byte, and every other byte matches case-insensitively (ASCII).
pub open spec fn like_match(p: Seq<u8>, t: Seq<u8>) -> bool
    decreases p.len(), t.len(),
{
    if p.len() == 0 {
        t.len() == 0
    } else if p[0] == 37 {
        like_match(p.skip(1), t) || (t.len() > 0 && like_match(p, t.skip(1)))
    } else if t.len() == 0 {
        false
    } else {
        (p[0] == 95 || lower_byte(p[0]) == lower_byte(t[0])) && like_match(p.skip(1), t.skip(1))
    }
}

fn like_match_at(p: &[u8], pi: usize, t: &[u8], ti: usize) -> (r: bool)
    requires
        pi <= p@.len(),
        ti <= t@.len(),
    ensures
        r == like_match(p@.skip(pi as int), t@.skip(ti as int)),
    decreases p@.len() - pi, t@.len() - ti,
{
    let ghost ps = p@.skip(pi as int);
    let ghost ts = t@.skip(ti as int);
    if pi == p.len() {
        ti == t.len()
    } else {
        let pc = *slice_index_get(p, pi);
        assert(pc == ps[0]);
        if pc == 37 {
            assert(ps.skip(1) =~= p@.skip(pi + 1));
            if like_match_at(p, pi + 1, t, ti) {
                true
            } else if ti < t.len() {
                assert(ts.skip(1) =~= t@.skip(ti + 1));
                like_match_at(p, pi, t, ti + 1)
            } else {
                false
            }
        } else if ti == t.len() {
            false
        } else {
            let tc = *slice_index_get(t, ti);
            assert(tc == ts[0]);
            let first = pc == 95 || lower_ascii_byte(pc) == lower_ascii_byte(tc);
            if first {
                assert(ps.skip(1) =~= p@.skip(pi + 1));
                assert(ts.skip(1) =~= t@.skip(ti + 1));
                like_match_at(p, pi + 1, t, ti + 1)
            } else {
                false
            }
        }
    }
}

/// Lowercases one byte ASCII-wise.
pub fn lower_ascii_byte(b: u8) -> (r: u8)
    ensures
        r == lower_byte(b),
{
    if 65 <= b && b <= 90 {
        b + 32
    } else {
        b
    }
}

/// Case-insensitive `LIKE` match of a pattern against a text, both UTF-8.
pub fn ilike(pattern: &str, text: &str) -> (r: bool)
    ensures
        r == like_match(pattern.spec_bytes(), text.spec_bytes()),
{
    let p = pattern.as_bytes();
    let t = text.as_bytes();
    let r = like_match_at(p, 0, t, 0);
    assert(p@.skip(0) =~= p@);
    assert(t@.skip(0) =~= t@);
    r
}

/// The needle occurs somewhere in the haystack.
pub open spec fn contains_sub(h: Seq<u8>, n: Seq<u8>) -> bool {
    exists|i: int| 0 <= i && i + n.len() <= h.len() && #[trigger] h.subrange(i, i + n.len()) =~= n
}

/// Substring search over bytes.
pub fn bytes_contains(h: &[u8], n: &[u8]) -> (r: bool)
    ensures
        r == contains_sub(h@, n@),
{
    if n.len() > h.len() {
        return false;
    }
    if n.len() == 0 {
        assert(contains_sub(h@, n@)) by {
            assert(h@.subrange(0, 0 + n@.len() as int) =~= n@);
        }
        return true;
    }
    let last = h.len() - n.len();
    proof {
        assert(h@.len() <= usize::MAX);
    }
    let mut i: usize = 0;
    while i <= last
        invariant
            n@.len() <= h@.len(),
            h@.len() <= usize::MAX,
            last == h@.len() - n@.len(),
            i <= last + 1,
            forall|k: int| 0 <= k < i ==> #[trigger] h@.subrange(k, k + n@.len()) !~= n@,
        decreases last + 1 - i,
    {
        let mut j: usize = 0;
        let mut hit = true;
        while j < n.len()
            invariant
                hit ==> forall|m: int| 0 <= m < j ==> h@[i + m] == n@[m],
                !hit ==> h@.subrange(i as int, i + n@.len()) !~= n@,
                i + n@.len() <= h@.len(),
                h@.len() <= usize::MAX,
                j <= n@.len(),
            decreases n@.len() - j,
        {
            if *slice_index_get(h, i + j) != *slice_index_get(n, j) {
                hit = false;
                assert(h@.subrange(i as int, i + n@.len())[j as int] != n@[j as int]);
                assert(h@.subrange(i as int, i + n@.len()) !~= n@);
                j = n.len();
            } else {
                j += 1;
            }
        }
        if hit {
            assert(h@.subrange(i as int, i + n@.len()) =~= n@);
            return true;
        }
        i += 1;
    }
    assert(forall|k: int|
        0 <= k && k + n@.len() <= h@.len() ==> #[trigger] h@.subrange(k, k + n@.len()) !~= n@);
    false
}

/// The view of an optional string.
pub open spec fn opt_str_view(o: Option<String>) -> Option<Seq<char>> {
    match o {
        Some(s) => Some(s@),
        None => None,
    }
}

/// What `"true"` and `"false"` parse to; anything else is rejected.
pub open spec fn spec_parse_bool(s: Seq<char>) -> Option<bool> {
    if s == "true"@ {
        Some(true)
    } else if s == "false"@ {
        Some(false)
    } else {
        None
    }
}

/// Parses a boolean the way `str::parse::<bool>` does: only the exact
/// strings `"true"` and `"false"` are accepted.
pub fn parse_bool(s: &String) -> (r: Option<bool>)
    ensures
        r == spec_parse_bool(s@),
{
    if str_eq(s.as_str(), "true") {
        Some(true)
    } else if str_eq(s.as_str(), "false") {
        Some(false)
    } else {
        None
    }
}

/// Equality of two string slices, usable where vstd specifies no `==`.
pub fn str_eq(a: &str, b: &str) -> (r: bool)
    ensures
        r == (a@ == b@),
{
    let r = bytes_eq(a.as_bytes(), b.as_bytes());
    proof {
        if a.spec_bytes() == b.spec_bytes() {
            vstd::utf8::encode_utf8_decode_utf8(a@);
            vstd::utf8::encode_utf8_decode_utf8(b@);
        }
    }
    r
}

} // verus!
