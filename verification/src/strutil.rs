//! Verified string primitives: character access, equality, lexicographic
//! order with its algebraic lemmas, prefix tests, and small builders.
//!
//! Rust's own comparison and search methods on `str` carry no specification
//! here, so the tokenizer uses these functions instead; each one's contract
//! speaks about the `Seq<char>` view of its arguments.

use vstd::prelude::*;

verus! {

/// Lexicographic order on character sequences: `a` comes strictly before `b`.
pub open spec fn str_lt(a: Seq<char>, b: Seq<char>) -> bool
    decreases a.len() + b.len(),
{
    if b.len() == 0 {
        false
    } else if a.len() == 0 {
        true
    } else if a[0] != b[0] {
        (a[0] as u32) < (b[0] as u32)
    } else {
        str_lt(a.skip(1), b.skip(1))
    }
}

/// Non-strict lexicographic order.
pub open spec fn str_le(a: Seq<char>, b: Seq<char>) -> bool {
    str_lt(a, b) || a == b
}

/// Of two character sequences, exactly one of `a < b`, `a == b`, `b < a` holds.
pub proof fn lemma_str_trichotomy(a: Seq<char>, b: Seq<char>)
    ensures
        str_lt(a, b) || a == b || str_lt(b, a),
        str_lt(a, b) ==> a != b && !str_lt(b, a),
        a == b ==> !str_lt(a, b) && !str_lt(b, a),
    decreases a.len() + b.len(),
{
    if a.len() == 0 || b.len() == 0 {
        if a.len() == 0 && b.len() == 0 {
            assert(a =~= b);
        }
    } else if a[0] != b[0] {
        lemma_char_cast_distinct(a[0], b[0]);
    } else {
        lemma_str_trichotomy(a.skip(1), b.skip(1));
        if a.skip(1) == b.skip(1) {
            assert forall|i: int| 0 <= i < a.len() implies a[i] == b[i] by {
                if i >= 1 {
                    assert(a.skip(1)[i - 1] == b.skip(1)[i - 1]);
                }
            }
            assert(a =~= b);
        }
        if a == b {
            assert(a.skip(1) =~= b.skip(1));
        }
    }
}

/// Distinct characters have distinct code points.
pub proof fn lemma_char_cast_distinct(a: char, b: char)
    requires
        a != b,
    ensures
        (a as u32) != (b as u32),
{
    vstd::utf8::char_u32_cast(a, a as u32);
    vstd::utf8::char_u32_cast(b, b as u32);
}

/// Lexicographic order is transitive.
pub proof fn lemma_str_lt_trans(a: Seq<char>, b: Seq<char>, c: Seq<char>)
    requires
        str_lt(a, b),
        str_lt(b, c),
    ensures
        str_lt(a, c),
    decreases a.len() + b.len() + c.len(),
{
    if b.len() == 0 {
        // str_lt(a, b) is false: nothing to do
    } else if c.len() == 0 {
        // str_lt(b, c) is false
    } else if a.len() == 0 {
        // a is least
    } else {
        if a[0] == b[0] && b[0] == c[0] {
            lemma_str_lt_trans(a.skip(1), b.skip(1), c.skip(1));
        }
    }
}

/// Non-strict order chains with the strict one.
pub proof fn lemma_str_le_lt_trans(a: Seq<char>, b: Seq<char>, c: Seq<char>)
    requires
        str_le(a, b),
        str_lt(b, c),
    ensures
        str_lt(a, c),
{
    if str_lt(a, b) {
        lemma_str_lt_trans(a, b, c);
    }
}

/// The strict order chains with the non-strict one.
pub proof fn lemma_str_lt_le_trans(a: Seq<char>, b: Seq<char>, c: Seq<char>)
    requires
        str_lt(a, b),
        str_le(b, c),
    ensures
        str_lt(a, c),
{
    if str_lt(b, c) {
        lemma_str_lt_trans(a, b, c);
    }
}

/// Non-strict order is transitive.
pub proof fn lemma_str_le_trans(a: Seq<char>, b: Seq<char>, c: Seq<char>)
    requires
        str_le(a, b),
        str_le(b, c),
    ensures
        str_le(a, c),
{
    if str_lt(a, b) && str_lt(b, c) {
        lemma_str_lt_trans(a, b, c);
    }
}

/// Non-strict order both ways is equality.
pub proof fn lemma_str_le_antisym(a: Seq<char>, b: Seq<char>)
    requires
        str_le(a, b),
        str_le(b, a),
    ensures
        a == b,
{
    lemma_str_trichotomy(a, b);
}

/// `p` is a prefix of `s`.
pub open spec fn is_prefix(p: Seq<char>, s: Seq<char>) -> bool {
    p.len() <= s.len() && p == s.subrange(0, p.len() as int)
}

/// First position of `c` in `s` at or after `i`, if any.
pub open spec fn find_char_from(s: Seq<char>, c: char, i: int) -> Option<int>
    decreases s.len() - i,
{
    if i < 0 || i >= s.len() {
        None
    } else if s[i] == c {
        Some(i)
    } else {
        find_char_from(s, c, i + 1)
    }
}

/// The character that stands for a short-name byte in messages: the byte
/// itself for ASCII, the replacement character otherwise.
pub open spec fn byte_char(b: u8) -> char {
    if b < 128 {
        b as char
    } else {
        '\u{fffd}'
    }
}

/// Character-wise equality of two string slices.
pub fn str_eq(a: &str, b: &str) -> (r: bool)
    ensures
        r == (a@ == b@),
{
    let an: usize = a.unicode_len();
    let bn: usize = b.unicode_len();
    if an != bn {
        return false;
    }
    let mut i: usize = 0;
    while i < an
        invariant
            i <= an,
            an == a@.len(),
            an == b@.len(),
            forall|k: int| 0 <= k < i ==> a@[k] == b@[k],
        decreases an - i,
    {
        if a.get_char(i) != b.get_char(i) {
            assert(a@ != b@);
            return false;
        }
        i += 1;
    }
    proof {
        assert(a@ =~= b@);
    }
    true
}

/// Three-way lexicographic comparison: negative, zero or positive as `a`
/// comes before, is equal to, or comes after `b`.
pub fn str_cmp(a: &str, b: &str) -> (r: i8)
    ensures
        (r == 0) == (a@ == b@),
        (r < 0) == str_lt(a@, b@),
        (r > 0) == str_lt(b@, a@),
{
    let an: usize = a.unicode_len();
    let bn: usize = b.unicode_len();
    let mut i: usize = 0;
    loop
        invariant
            i <= an,
            i <= bn,
            an == a@.len(),
            bn == b@.len(),
            forall|k: int| 0 <= k < i ==> a@[k] == b@[k],
        decreases an - i,
    {
        proof {
            lemma_str_lt_at(a@, b@, i as int);
            lemma_str_trichotomy(a@, b@);
        }
        if i >= an || i >= bn {
            if an == bn {
                proof {
                    assert(a@ =~= b@);
                }
                return 0;
            } else if an < bn {
                return -1;
            } else {
                return 1;
            }
        }
        let ca = a.get_char(i);
        let cb = b.get_char(i);
        if ca != cb {
            proof {
                lemma_char_cast_distinct(ca, cb);
            }
            if (ca as u32) < (cb as u32) {
                return -1;
            } else {
                return 1;
            }
        }
        i += 1;
    }
}

/// With equal prefixes of length `i`, the order of `a` and `b` is decided at
/// position `i`.
pub proof fn lemma_str_lt_at(a: Seq<char>, b: Seq<char>, i: int)
    requires
        0 <= i <= a.len(),
        i <= b.len(),
        forall|k: int| 0 <= k < i ==> a[k] == b[k],
    ensures
        str_lt(a, b) == (i < b.len() && (i == a.len() || (a[i] != b[i] && (a[i] as u32) < (
        b[i] as u32)) || (a[i] == b[i] && str_lt(a.skip(i + 1), b.skip(i + 1))))),
    decreases i,
{
    if i == 0 {
        if 0 < a.len() && 0 < b.len() && a[0] == b[0] {
            assert(a.skip(1) =~= a.skip(i + 1));
        }
    } else {
        // peel one character off both and recurse
        let a1 = a.skip(1);
        let b1 = b.skip(1);
        assert(forall|k: int| 0 <= k < i - 1 ==> a1[k] == b1[k]);
        lemma_str_lt_at(a1, b1, i - 1);
        broadcast use vstd::seq_lib::lemma_seq_skip_of_skip;

        if i < a.len() && i < b.len() {
            assert(a1[i - 1] == a[i]);
            assert(b1[i - 1] == b[i]);
            if a[i] == b[i] {
                assert(a1.skip(i) =~= a.skip(i + 1));
                assert(b1.skip(i) =~= b.skip(i + 1));
            }
        }
    }
}

/// Prefix test, character by character.
pub fn str_is_prefix(p: &str, s: &str) -> (r: bool)
    ensures
        r == is_prefix(p@, s@),
{
    let pn: usize = p.unicode_len();
    let sn: usize = s.unicode_len();
    if pn > sn {
        return false;
    }
    let mut i: usize = 0;
    while i < pn
        invariant
            i <= pn,
            pn <= sn,
            pn == p@.len(),
            sn == s@.len(),
            forall|k: int| 0 <= k < i ==> p@[k] == s@[k],
        decreases pn - i,
    {
        if p.get_char(i) != s.get_char(i) {
            assert(!is_prefix(p@, s@)) by {
                assert(p@[i as int] != s@.subrange(0, p@.len() as int)[i as int]);
            }
            return false;
        }
        i += 1;
    }
    proof {
        assert(p@ =~= s@.subrange(0, p@.len() as int));
    }
    true
}

/// First position of `c` in `s`, if any.
pub fn find_char(s: &str, c: char) -> (r: Option<usize>)
    ensures
        match r {
            Some(k) => k < s@.len() && find_char_from(s@, c, 0) == Some(k as int),
            None => find_char_from(s@, c, 0) is None,
        },
{
    let n: usize = s.unicode_len();
    let mut i: usize = 0;
    while i < n
        invariant
            i <= n,
            n == s@.len(),
            find_char_from(s@, c, 0) == find_char_from(s@, c, i as int),
        decreases n - i,
    {
        if s.get_char(i) == c {
            return Some(i);
        }
        i += 1;
    }
    None
}

/// Whether a string slice is exactly the two-character double dash.
pub fn is_double_dash(s: &str) -> (r: bool)
    ensures
        r == (s@ == seq!['-', '-']),
{
    let n: usize = s.unicode_len();
    let ghost dd: Seq<char> = seq!['-', '-'];
    if n != 2 {
        assert(s@ != dd);
        return false;
    }
    if s.get_char(0) != '-' || s.get_char(1) != '-' {
        assert(s@ != dd);
        return false;
    }
    proof {
        assert(s@ =~= dd);
    }
    true
}

/// Relies on `String::push`: appends one character at the end.
#[verifier::external_body]
pub fn push_char(s: &mut String, c: char)
    ensures
        final(s)@ == old(s)@.push(c),
{
    s.push(c);
}

/// A one-character string.
pub fn char_to_string(c: char) -> (r: String)
    ensures
        r@ =~= seq![c],
{
    let mut s = String::new();
    push_char(&mut s, c);
    s
}

/// The one-character string that stands for a short-name byte.
pub fn byte_to_string(b: u8) -> (r: String)
    ensures
        r@ =~= seq![byte_char(b)],
{
    if b < 128 {
        char_to_string(b as char)
    } else {
        char_to_string('\u{fffd}')
    }
}

} // verus!
