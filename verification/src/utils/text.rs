//! Characters and words: what counts as whitespace, prefixes, and the
//! lexicographic order on strings.

use vstd::prelude::*;

verus! {

/// The characters that separate words: those with the Unicode property
/// `White_Space`.
pub open spec fn is_whitespace(c: char) -> bool {
    let n = c as int;
    (0x09 <= n <= 0x0d) || n == 0x20 || n == 0x85 || n == 0xa0 || n == 0x1680
        || (0x2000 <= n <= 0x200a) || n == 0x2028 || n == 0x2029 || n == 0x202f
        || n == 0x205f || n == 0x3000
}

/// A sequence of characters that holds whitespace only; the empty one is blank.
pub open spec fn blank(s: Seq<char>) -> bool {
    forall|i: int| 0 <= i < s.len() ==> is_whitespace(#[trigger] s[i])
}

/// What a vector of strings holds, each string by its characters.
pub open spec fn names(v: Seq<String>) -> Seq<Seq<char>> {
    Seq::new(v.len(), |i: int| v[i]@)
}

/// A character with the ASCII capitals `A` to `Z` made small, as a number.
pub open spec fn ascii_lower(c: char) -> int {
    if 'A' as int <= c as int <= 'Z' as int {
        c as int + 32
    } else {
        c as int
    }
}

/// Two strings are the same but for the case of their ASCII letters.
pub open spec fn same_ignoring_ascii_case(a: Seq<char>, b: Seq<char>) -> bool {
    a.len() == b.len() && forall|i: int|
        0 <= i < a.len() ==> ascii_lower(#[trigger] a[i]) == ascii_lower(b[i])
}

/// Tells whether `a` and `b` are the same but for the case of their ASCII
/// letters.
pub fn eq_ignoring_ascii_case(a: &str, b: &str) -> (r: bool)
    ensures
        r == same_ignoring_ascii_case(a@, b@),
{
    let n: usize = a.unicode_len();
    if n != b.unicode_len() {
        return false;
    }
    let mut i: usize = 0;
    while i < n
        invariant
            i <= n,
            n == a@.len(),
            n == b@.len(),
            forall|k: int| 0 <= k < i ==> ascii_lower(#[trigger] a@[k]) == ascii_lower(b@[k]),
        decreases n - i,
    {
        let x: u32 = a.get_char(i) as u32;
        let y: u32 = b.get_char(i) as u32;
        let lx: u32 = if 65 <= x && x <= 90 { x + 32 } else { x };
        let ly: u32 = if 65 <= y && y <= 90 { y + 32 } else { y };
        if lx != ly {
            assert(ascii_lower(a@[i as int]) != ascii_lower(b@[i as int]));
            return false;
        }
        i += 1;
    }
    true
}

/// Tells whether `c` separates words.
pub fn is_space(c: char) -> (b: bool)
    ensures
        b == is_whitespace(c),
{
    let n: u32 = c as u32;
    (0x09 <= n && n <= 0x0d) || n == 0x20 || n == 0x85 || n == 0xa0 || n == 0x1680
        || (0x2000 <= n && n <= 0x200a) || n == 0x2028 || n == 0x2029 || n == 0x202f
        || n == 0x205f || n == 0x3000
}

/// Tells whether `s` starts with `p`.
pub fn has_prefix(s: &str, p: &str) -> (b: bool)
    ensures
        b == p@.is_prefix_of(s@),
{
    let n: usize = s.unicode_len();
    let m: usize = p.unicode_len();
    if m > n {
        return false;
    }
    let mut i: usize = 0;
    while i < m
        invariant
            i <= m <= n,
            n == s@.len(),
            m == p@.len(),
            forall|k: int| 0 <= k < i ==> s@[k] == p@[k],
        decreases m - i,
    {
        if s.get_char(i) != p.get_char(i) {
            assert(s@.subrange(0, m as int)[i as int] != p@[i as int]);
            return false;
        }
        i += 1;
    }
    assert(s@.subrange(0, m as int) =~= p@);
    true
}

/// The first `k` characters of `a` and of `b` are the same.
pub open spec fn agree_upto(a: Seq<char>, b: Seq<char>, k: int) -> bool {
    0 <= k <= a.len() && k <= b.len() && forall|j: int| 0 <= j < k ==> a[j] == b[j]
}

/// `a` and `b` agree on their first `k` characters and part there in favour
/// of `a`: either `a` ends and `b` goes on, or `a` has the smaller character.
pub open spec fn parts_at(a: Seq<char>, b: Seq<char>, k: int) -> bool {
    agree_upto(a, b, k) && k < b.len() && (k == a.len() || (a[k] as int) < (b[k] as int))
}

/// The strict lexicographic order on strings, character by character.
pub open spec fn precedes(a: Seq<char>, b: Seq<char>) -> bool {
    exists|k: int| parts_at(a, b, k)
}

/// How two strings stand to each other in the lexicographic order.
#[derive(Clone, Copy, Debug, PartialEq, Eq)]
pub enum Standing {
    Before,
    Same,
    After,
}

/// The standing of `a` to `b`.
pub open spec fn standing(a: Seq<char>, b: Seq<char>) -> Standing {
    if a == b {
        Standing::Same
    } else if precedes(a, b) {
        Standing::Before
    } else {
        Standing::After
    }
}

/// Two strings can part in favour of the first at one place only, and then
/// they do not part in favour of the second.
pub proof fn lemma_parts_once(a: Seq<char>, b: Seq<char>, k: int)
    requires
        parts_at(a, b, k),
    ensures
        a != b,
        precedes(a, b),
        !precedes(b, a),
        forall|j: int| parts_at(a, b, j) ==> j == k,
{
    assert forall|j: int| parts_at(a, b, j) implies j == k by {
        if j < k {
            assert(a[j] == b[j]);
        } else if k < j {
            assert(a[k] == b[k]);
        }
    }
    assert forall|j: int| !parts_at(b, a, j) by {
        if parts_at(b, a, j) {
            if j < k {
                assert(a[j] == b[j]);
            } else if k < j {
                assert(b[k] == a[k]);
            }
        }
    }
    if a == b {
        assert(a.len() == b.len());
    }
}

/// No string precedes itself.
pub proof fn lemma_precedes_irreflexive(a: Seq<char>)
    ensures
        !precedes(a, a),
{
    assert forall|k: int| !parts_at(a, a, k) by {}
}

/// The lexicographic order is transitive.
pub proof fn lemma_precedes_transitive(a: Seq<char>, b: Seq<char>, c: Seq<char>)
    requires
        precedes(a, b),
        precedes(b, c),
    ensures
        precedes(a, c),
{
    let k1 = choose|k: int| parts_at(a, b, k);
    let k2 = choose|k: int| parts_at(b, c, k);
    let k = if k1 <= k2 { k1 } else { k2 };
    assert forall|j: int| 0 <= j < k implies a[j] == c[j] by {
        assert(a[j] == b[j]);
        assert(b[j] == c[j]);
    }
    if k1 < k2 {
        assert(b[k1] == c[k1]);
    } else if k2 < k1 {
        assert(a[k2] == b[k2]);
    }
    assert(parts_at(a, c, k));
}

/// Compares two strings in the lexicographic order.
pub fn order_of(a: &str, b: &str) -> (r: Standing)
    ensures
        r == standing(a@, b@),
        r == Standing::After <==> precedes(b@, a@),
{
    let n: usize = a.unicode_len();
    let m: usize = b.unicode_len();
    let mut i: usize = 0;
    while i < n && i < m
        invariant
            n == a@.len(),
            m == b@.len(),
            agree_upto(a@, b@, i as int),
        decreases n - i,
    {
        let x: u32 = a.get_char(i) as u32;
        let y: u32 = b.get_char(i) as u32;
        if x < y {
            proof {
                lemma_parts_once(a@, b@, i as int);
            }
            return Standing::Before;
        }
        if y < x {
            proof {
                assert(parts_at(b@, a@, i as int));
                lemma_parts_once(b@, a@, i as int);
            }
            return Standing::After;
        }
        i += 1;
    }
    if i < m {
        proof {
            lemma_parts_once(a@, b@, i as int);
        }
        Standing::Before
    } else if i < n {
        proof {
            lemma_parts_once(b@, a@, i as int);
        }
        Standing::After
    } else {
        proof {
            assert(a@ =~= b@);
            lemma_precedes_irreflexive(a@);
        }
        Standing::Same
    }
}

} // verus!
