//! Identifier references of the form `namespace:base` (or bare `base`),
//! string comparison helpers, and canonical identifier composition.

use vstd::prelude::*;

verus! {

/// Index of the first `:` in `s`, or `-1` when there is none.
pub open spec fn first_colon(s: Seq<char>) -> int
    decreases s.len(),
{
    if s.len() == 0 {
        -1
    } else if s[0] == ':' {
        0
    } else {
        let r = first_colon(s.subrange(1, s.len() as int));
        if r < 0 {
            -1
        } else {
            r + 1
        }
    }
}

/// `first_colon` is exactly the least index holding `:`, and `-1` when no
/// index does.
pub proof fn lemma_first_colon(s: Seq<char>)
    ensures
        first_colon(s) == -1 <==> (forall|j: int| 0 <= j < s.len() ==> s[j] != ':'),
        first_colon(s) >= 0 ==> 0 <= first_colon(s) < s.len() && s[first_colon(s)] == ':'
            && (forall|j: int| 0 <= j < first_colon(s) ==> s[j] != ':'),
    decreases s.len(),
{
    if s.len() == 0 {
    } else if s[0] == ':' {
    } else {
        let t = s.subrange(1, s.len() as int);
        lemma_first_colon(t);
        assert(forall|j: int| 1 <= j < s.len() ==> s[j] == t[j - 1]);
    }
}

/// The namespace prefix of a reference: the part before the first `:`,
/// or `None` when the reference is bare.
pub open spec fn spec_prefix(s: Seq<char>) -> Option<Seq<char>> {
    if first_colon(s) >= 0 {
        Some(s.subrange(0, first_colon(s)))
    } else {
        None
    }
}

/// The base part of a reference: everything after the first `:`, or the
/// whole reference when it is bare.
pub open spec fn spec_base(s: Seq<char>) -> Seq<char> {
    if first_colon(s) >= 0 {
        s.subrange(first_colon(s) + 1, s.len() as int)
    } else {
        s
    }
}

/// Splits an identifier reference at its first `:` into an optional
/// namespace prefix and a base identifier.
pub fn split_ref(s: &str) -> (r: (Option<String>, String))
    ensures
        r.1@ == spec_base(s@),
        r.0 is Some <==> spec_prefix(s@) is Some,
        r.0 matches Some(ns) ==> spec_prefix(s@) == Some(ns@),
{
    let n = s.unicode_len();
    let mut i: usize = 0;
    while i < n && s.get_char(i) != ':'
        invariant
            n == s@.len(),
            0 <= i <= n,
            forall|j: int| 0 <= j < i ==> s@[j] != ':',
        decreases n - i,
    {
        i = i + 1;
    }
    proof {
        lemma_first_colon(s@);
    }
    if i < n {
        let prefix = s.substring_char(0, i);
        let base = s.substring_char(i + 1, n);
        (Some(prefix.to_owned()), base.to_owned())
    } else {
        (None, s.to_owned())
    }
}

/// Character-wise string equality, stated over the views.
pub fn str_eq(a: &str, b: &str) -> (r: bool)
    ensures
        r == (a@ == b@),
{
    let an = a.unicode_len();
    let bn = b.unicode_len();
    if an != bn {
        return false;
    }
    let mut i: usize = 0;
    while i < an
        invariant
            an == a@.len(),
            an == b@.len(),
            0 <= i <= an,
            forall|j: int| 0 <= j < i ==> a@[j] == b@[j],
        decreases an - i,
    {
        if a.get_char(i) != b.get_char(i) {
            return false;
        }
        i = i + 1;
    }
    proof {
        assert(a@ =~= b@);
    }
    true
}

/// Strict lexicographic order on character sequences.
pub open spec fn lex_lt(a: Seq<char>, b: Seq<char>) -> bool
    decreases a.len(),
{
    if b.len() == 0 {
        false
    } else if a.len() == 0 {
        true
    } else if a[0] != b[0] {
        (a[0] as u32) < (b[0] as u32)
    } else {
        lex_lt(a.subrange(1, a.len() as int), b.subrange(1, b.len() as int))
    }
}

/// `lex_lt` is irreflexive and total: of two distinct sequences exactly one
/// precedes the other.
pub proof fn lemma_lex_lt_trichotomy(a: Seq<char>, b: Seq<char>)
    ensures
        a == b <==> (!lex_lt(a, b) && !lex_lt(b, a)),
        !(lex_lt(a, b) && lex_lt(b, a)),
    decreases a.len(),
{
    if b.len() == 0 || a.len() == 0 {
        if a.len() == 0 && b.len() == 0 {
            assert(a =~= b);
        } else {
            assert(a.len() != b.len());
        }
    } else if a[0] != b[0] {
        vstd::utf8::char_u32_cast(a[0], a[0] as u32);
        vstd::utf8::char_u32_cast(b[0], b[0] as u32);
        assert((a[0] as u32) != (b[0] as u32));
        assert(a != b);
    } else {
        let a1 = a.subrange(1, a.len() as int);
        let b1 = b.subrange(1, b.len() as int);
        lemma_lex_lt_trichotomy(a1, b1);
        assert(forall|j: int| 1 <= j < a.len() ==> a[j] == a1[j - 1]);
        assert(forall|j: int| 1 <= j < b.len() ==> b[j] == b1[j - 1]);
        if a1 == b1 {
            assert(a =~= b);
        }
        if a == b {
            assert(a1 =~= b1);
        }
    }
}

/// `lex_lt` is transitive.
pub proof fn lemma_lex_lt_trans(a: Seq<char>, b: Seq<char>, c: Seq<char>)
    requires
        lex_lt(a, b),
        lex_lt(b, c),
    ensures
        lex_lt(a, c),
    decreases a.len() + b.len() + c.len(),
{
    if c.len() == 0 || b.len() == 0 {
    } else if a.len() == 0 {
    } else {
        if a[0] != b[0] {
            if b[0] != c[0] {
            } else {
            }
        } else if b[0] != c[0] {
        } else {
            lemma_lex_lt_trans(
                a.subrange(1, a.len() as int),
                b.subrange(1, b.len() as int),
                c.subrange(1, c.len() as int),
            );
        }
    }
}

/// Character-wise lexicographic comparison, stated over the views.
pub fn str_lt(a: &str, b: &str) -> (r: bool)
    ensures
        r == lex_lt(a@, b@),
{
    let an = a.unicode_len();
    let bn = b.unicode_len();
    let mut i: usize = 0;
    proof {
        assert(a@.subrange(0, an as int) =~= a@);
        assert(b@.subrange(0, bn as int) =~= b@);
    }
    loop
        invariant
            an == a@.len(),
            bn == b@.len(),
            0 <= i <= an,
            i <= bn,
            forall|j: int| 0 <= j < i ==> a@[j] == b@[j],
            lex_lt(a@, b@) == lex_lt(
                a@.subrange(i as int, an as int),
                b@.subrange(i as int, bn as int),
            ),
        decreases an - i,
    {
        proof {
            let ra = a@.subrange(i as int, an as int);
            let rb = b@.subrange(i as int, bn as int);
            if i < an && i < bn {
                assert(ra[0] == a@[i as int]);
                assert(rb[0] == b@[i as int]);
                assert(ra.subrange(1, ra.len() as int) =~= a@.subrange(i + 1, an as int));
                assert(rb.subrange(1, rb.len() as int) =~= b@.subrange(i + 1, bn as int));
            }
        }
        if i >= bn {
            return false;
        }
        if i >= an {
            return true;
        }
        let ca = a.get_char(i);
        let cb = b.get_char(i);
        if ca != cb {
            return (ca as u32) < (cb as u32);
        }
        i = i + 1;
    }
}

/// Canonical display form of an identifier: bare for the application
/// namespace, `namespace:base` otherwise.
pub open spec fn canonical_id(ns_key: Seq<char>, base: Seq<char>) -> Seq<char> {
    if ns_key == crate::APP_ACL_KEY@ {
        base
    } else {
        ns_key + seq![':'] + base
    }
}

/// Composes the canonical identifier string for `base` under `ns_key`.
pub fn make_canonical(ns_key: &str, base: &str) -> (r: String)
    ensures
        r@ == canonical_id(ns_key@, base@),
{
    if str_eq(ns_key, crate::APP_ACL_KEY) {
        base.to_owned()
    } else {
        let mut out = ns_key.to_owned();
        out.append(":");
        out.append(base);
        proof {
            reveal_strlit(":");
            assert(out@ =~= ns_key@ + seq![':'] + base@);
        }
        out
    }
}

} // verus!
