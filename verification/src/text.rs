//! Verified helpers for the character-level string work the agent core needs:
//! equality, concatenation, prefix handling, substring search, and rendering
//! of unsigned numbers for generated state keys.

use vstd::prelude::*;

verus! {

/// Character-by-character string equality.
pub fn str_eq(a: &str, b: &str) -> (r: bool)
    ensures
        r == (a@ == b@),
{
    let alen = a.unicode_len();
    let blen = b.unicode_len();
    if alen != blen {
        return false;
    }
    let mut i: usize = 0;
    while i < alen
        invariant
            alen == a@.len(),
            blen == b@.len(),
            alen == blen,
            i <= alen,
            forall|k: int| 0 <= k < i ==> a@[k] == b@[k],
        decreases alen - i,
    {
        if a.get_char(i) != b.get_char(i) {
            return false;
        }
        i += 1;
    }
    proof {
        assert(a@ =~= b@);
    }
    true
}

/// Concatenation of two string slices into an owned string.
pub fn concat2(a: &str, b: &str) -> (r: String)
    ensures
        r@ == a@ + b@,
{
    let s = a.to_owned();
    s.concat(b)
}

/// Concatenation of three string slices into an owned string.
pub fn concat3(a: &str, b: &str, c: &str) -> (r: String)
    ensures
        r@ == a@ + b@ + c@,
{
    let s = a.to_owned();
    let s = s.concat(b);
    s.concat(c)
}

/// Whether `p` is a prefix of `s`.
pub fn has_prefix(s: &str, p: &str) -> (r: bool)
    ensures
        r == p@.is_prefix_of(s@),
{
    let slen = s.unicode_len();
    let plen = p.unicode_len();
    if plen > slen {
        proof {
            assert(!p@.is_prefix_of(s@));
        }
        return false;
    }
    let mut i: usize = 0;
    while i < plen
        invariant
            slen == s@.len(),
            plen == p@.len(),
            plen <= slen,
            i <= plen,
            forall|k: int| 0 <= k < i ==> s@[k] == p@[k],
        decreases plen - i,
    {
        if s.get_char(i) != p.get_char(i) {
            proof {
                assert(s@.subrange(0, p@.len() as int)[i as int] != p@[i as int]);
            }
            return false;
        }
        i += 1;
    }
    proof {
        assert(s@.subrange(0, p@.len() as int) =~= p@);
    }
    true
}

/// The part of `s` after the prefix `p`.
pub fn suffix_after<'a>(s: &'a str, p: &str) -> (r: &'a str)
    requires
        p@.is_prefix_of(s@),
    ensures
        r@ == s@.skip(p@.len() as int),
{
    let slen = s.unicode_len();
    let plen = p.unicode_len();
    let r = s.substring_char(plen, slen);
    proof {
        assert(r@ =~= s@.skip(p@.len() as int));
    }
    r
}

/// Whether `needle` occurs as a contiguous run of characters inside `hay`.
pub open spec fn spec_contains(hay: Seq<char>, needle: Seq<char>) -> bool {
    exists|i: int|
        0 <= i && i + needle.len() <= hay.len() && #[trigger] hay.subrange(
            i,
            i + needle.len() as int,
        ) == needle
}

fn match_at(hay: &str, needle: &str, i: usize) -> (r: bool)
    requires
        i + needle@.len() <= hay@.len(),
    ensures
        r == (hay@.subrange(i as int, i + needle@.len() as int) == needle@),
{
    let h = hay.unicode_len();
    let n = needle.unicode_len();
    let mut j: usize = 0;
    while j < n
        invariant
            h == hay@.len(),
            n == needle@.len(),
            i + n <= h,
            j <= n,
            forall|k: int| 0 <= k < j ==> hay@[i + k] == needle@[k],
        decreases n - j,
    {
        if hay.get_char(i + j) != needle.get_char(j) {
            proof {
                assert(hay@.subrange(i as int, i + needle@.len() as int)[j as int]
                    != needle@[j as int]);
            }
            return false;
        }
        j += 1;
    }
    proof {
        assert(hay@.subrange(i as int, i + needle@.len() as int) =~= needle@);
    }
    true
}

/// Substring search.
pub fn contains_substr(hay: &str, needle: &str) -> (r: bool)
    ensures
        r == spec_contains(hay@, needle@),
{
    let h = hay.unicode_len();
    let n = needle.unicode_len();
    if n > h {
        return false;
    }
    if n == 0 {
        proof {
            assert(hay@.subrange(0, 0 + needle@.len() as int) =~= needle@);
        }
        return true;
    }
    let mut i: usize = 0;
    while i <= h - n
        invariant
            h == hay@.len(),
            n == needle@.len(),
            0 < n <= h,
            i <= h - n + 1,
            forall|k: int|
                0 <= k < i ==> #[trigger] hay@.subrange(k, k + needle@.len() as int) != needle@,
        decreases h - i,
    {
        if match_at(hay, needle, i) {
            return true;
        }
        i += 1;
    }
    false
}

/// Appending to a prefix and stripping it again are inverse.
pub proof fn lemma_concat_parts(p: Seq<char>, k: Seq<char>)
    ensures
        (p + k).skip(p.len() as int) =~= k,
        (p + k).take(p.len() as int) =~= p,
        p.is_prefix_of(p + k),
{
    assert((p + k).subrange(0, p.len() as int) =~= p);
}

/// A string is its prefix followed by the rest.
pub proof fn lemma_prefix_recompose(p: Seq<char>, s: Seq<char>)
    requires
        p.is_prefix_of(s),
    ensures
        p + s.skip(p.len() as int) =~= s,
{
}

/// Prefixing with a fixed string is injective.
pub proof fn lemma_prefix_injective(p: Seq<char>, a: Seq<char>, b: Seq<char>)
    requires
        p + a == p + b,
    ensures
        a == b,
{
    lemma_concat_parts(p, a);
    lemma_concat_parts(p, b);
    assert(a =~= b);
}

/// The decimal digit character for `d`.
pub open spec fn spec_digit_char(d: u64) -> char {
    if d == 0 {
        '0'
    } else if d == 1 {
        '1'
    } else if d == 2 {
        '2'
    } else if d == 3 {
        '3'
    } else if d == 4 {
        '4'
    } else if d == 5 {
        '5'
    } else if d == 6 {
        '6'
    } else if d == 7 {
        '7'
    } else if d == 8 {
        '8'
    } else {
        '9'
    }
}

/// The decimal rendering of `n`, most significant digit first.
pub open spec fn spec_u64_string(n: u64) -> Seq<char>
    decreases n,
{
    if n < 10 {
        seq![spec_digit_char(n)]
    } else {
        spec_u64_string((n / 10) as u64).push(spec_digit_char(n % 10))
    }
}

/// A decimal rendering has one character exactly for the numbers below ten.
pub proof fn lemma_u64_string_len(n: u64)
    ensures
        spec_u64_string(n).len() >= 1,
        (n < 10) <==> (spec_u64_string(n).len() == 1),
    decreases n,
{
    if n >= 10 {
        lemma_u64_string_len((n / 10) as u64);
    }
}

/// Distinct numbers render to distinct decimal strings.
pub proof fn lemma_u64_string_injective(a: u64, b: u64)
    requires
        spec_u64_string(a) == spec_u64_string(b),
    ensures
        a == b,
    decreases a,
{
    lemma_u64_string_len(a);
    lemma_u64_string_len(b);
    if a < 10 && b < 10 {
        assert(spec_u64_string(a)[0] == spec_digit_char(a));
        assert(spec_u64_string(b)[0] == spec_digit_char(b));
        assert(a == b);
    } else if a >= 10 && b >= 10 {
        let qa = (a / 10) as u64;
        let qb = (b / 10) as u64;
        assert(spec_u64_string(a).drop_last() =~= spec_u64_string(qa));
        assert(spec_u64_string(b).drop_last() =~= spec_u64_string(qb));
        assert(spec_u64_string(a).last() == spec_digit_char(a % 10));
        assert(spec_u64_string(b).last() == spec_digit_char(b % 10));
        assert(a % 10 == b % 10);
        assert(qa < a) by (nonlinear_arith)
            requires
                a >= 10,
                qa == a / 10,
        ;
        lemma_u64_string_injective(qa, qb);
        assert(a == b) by (nonlinear_arith)
            requires
                qa == a / 10,
                qb == b / 10,
                qa == qb,
                a % 10 == b % 10,
        ;
    } else {
        assert(spec_u64_string(a).len() != spec_u64_string(b).len());
    }
}

fn digit_str(d: u64) -> (r: &'static str)
    requires
        d < 10,
    ensures
        r@ == seq![spec_digit_char(d)],
{
    proof {
        reveal_strlit("0");
        reveal_strlit("1");
        reveal_strlit("2");
        reveal_strlit("3");
        reveal_strlit("4");
        reveal_strlit("5");
        reveal_strlit("6");
        reveal_strlit("7");
        reveal_strlit("8");
        reveal_strlit("9");
    }
    let r = if d == 0 {
        "0"
    } else if d == 1 {
        "1"
    } else if d == 2 {
        "2"
    } else if d == 3 {
        "3"
    } else if d == 4 {
        "4"
    } else if d == 5 {
        "5"
    } else if d == 6 {
        "6"
    } else if d == 7 {
        "7"
    } else if d == 8 {
        "8"
    } else {
        "9"
    };
    proof {
        assert(r@ =~= seq![spec_digit_char(d)]);
    }
    r
}

/// Renders `n` in decimal.
pub fn u64_to_string(n: u64) -> (r: String)
    ensures
        r@ == spec_u64_string(n),
    decreases n,
{
    if n < 10 {
        digit_str(n).to_owned()
    } else {
        let q = n / 10;
        let d = n % 10;
        proof {
            assert(q < n) by (nonlinear_arith)
                requires
                    n >= 10,
                    q == n / 10,
            ;
        }
        let mut s = u64_to_string(q);
        s.append(digit_str(d));
        proof {
            assert(s@ =~= spec_u64_string(n));
        }
        s
    }
}

} // verus!
