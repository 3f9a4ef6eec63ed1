//! Lexicographic order on character sequences, and an executable
//! three-way comparison for `&str` proved against it. The store keeps its
//! entries sorted by this order, keyed on the (user, key) pair.

use vstd::prelude::*;

verus! {

/// Strict lexicographic order on character sequences, comparing by code
/// point: a proper prefix sorts before its extensions.
pub open spec fn lex_lt(a: Seq<char>, b: Seq<char>) -> bool
    decreases a.len(),
{
    if b.len() == 0 {
        false
    } else if a.len() == 0 {
        true
    } else if a[0] != b[0] {
        (a[0] as u32) < (b[0] as u32)
    } else {
        lex_lt(a.drop_first(), b.drop_first())
    }
}

/// Non-strict lexicographic order.
pub open spec fn lex_le(a: Seq<char>, b: Seq<char>) -> bool {
    lex_lt(a, b) || a == b
}

/// Strict order on (user, key) pairs: by user first, then by key.
pub open spec fn pair_lt(a: (Seq<char>, Seq<char>), b: (Seq<char>, Seq<char>)) -> bool {
    lex_lt(a.0, b.0) || (a.0 == b.0 && lex_lt(a.1, b.1))
}

/// Exactly one of `lex_lt(a, b)`, `a == b`, `lex_lt(b, a)` holds.
pub proof fn lemma_lex_trichotomy(a: Seq<char>, b: Seq<char>)
    ensures
        lex_lt(a, b) ==> !lex_lt(b, a) && a != b,
        !lex_lt(a, b) && !lex_lt(b, a) ==> a == b,
    decreases a.len(),
{
    if b.len() == 0 || a.len() == 0 {
        if a.len() == 0 && b.len() == 0 {
            assert(a =~= b);
        }
    } else if a[0] == b[0] {
        lemma_lex_trichotomy(a.drop_first(), b.drop_first());
        if !lex_lt(a, b) && !lex_lt(b, a) {
            assert(a.drop_first() == b.drop_first());
            assert(a.len() == b.len());
            assert forall|j: int| 0 <= j < a.len() implies a[j] == b[j] by {
                if j > 0 {
                    assert(a[j] == a.drop_first()[j - 1]);
                    assert(b[j] == b.drop_first()[j - 1]);
                }
            }
            assert(a =~= b);
        }
        if lex_lt(a, b) && a == b {
            assert(a.drop_first() == b.drop_first());
        }
    } else {
        lemma_lex_distinct_head(a, b);
    }
}

// The distinct-head case of trichotomy: code points are injective on
// characters, so distinct heads order the sequences strictly one way.
proof fn lemma_lex_distinct_head(a: Seq<char>, b: Seq<char>)
    requires
        a.len() > 0,
        b.len() > 0,
        a[0] != b[0],
    ensures
        lex_lt(a, b) ==> !lex_lt(b, a) && a != b,
        !lex_lt(a, b) && !lex_lt(b, a) ==> a == b,
{
    vstd::utf8::char_u32_cast(a[0], a[0] as u32);
    vstd::utf8::char_u32_cast(b[0], b[0] as u32);
    assert((a[0] as u32) != (b[0] as u32));
}

/// Transitivity of the strict lexicographic order.
pub proof fn lemma_lex_lt_trans(a: Seq<char>, b: Seq<char>, c: Seq<char>)
    requires
        lex_lt(a, b),
        lex_lt(b, c),
    ensures
        lex_lt(a, c),
    decreases a.len() + b.len() + c.len(),
{
    if a.len() == 0 || b.len() == 0 || c.len() == 0 {
    } else if a[0] == b[0] && b[0] == c[0] {
        lemma_lex_lt_trans(a.drop_first(), b.drop_first(), c.drop_first());
    } else {
        vstd::utf8::char_u32_cast(a[0], a[0] as u32);
        vstd::utf8::char_u32_cast(b[0], b[0] as u32);
        vstd::utf8::char_u32_cast(c[0], c[0] as u32);
    }
}

/// Transitivity of the strict order on pairs.
pub proof fn lemma_pair_lt_trans(
    a: (Seq<char>, Seq<char>),
    b: (Seq<char>, Seq<char>),
    c: (Seq<char>, Seq<char>),
)
    requires
        pair_lt(a, b),
        pair_lt(b, c),
    ensures
        pair_lt(a, c),
{
    if lex_lt(a.0, b.0) && lex_lt(b.0, c.0) {
        lemma_lex_lt_trans(a.0, b.0, c.0);
    } else if a.0 == b.0 && a.1 != b.1 && b.0 == c.0 {
        lemma_lex_lt_trans(a.1, b.1, c.1);
    }
}

/// Exactly one of `pair_lt(a, b)`, `a == b`, `pair_lt(b, a)` holds.
pub proof fn lemma_pair_trichotomy(a: (Seq<char>, Seq<char>), b: (Seq<char>, Seq<char>))
    ensures
        pair_lt(a, b) ==> !pair_lt(b, a) && a != b,
        !pair_lt(a, b) && !pair_lt(b, a) ==> a == b,
{
    lemma_lex_trichotomy(a.0, b.0);
    lemma_lex_trichotomy(a.1, b.1);
}

// With equal prefixes of length `i`, the order of the whole sequences is
// the order of the remainders.
proof fn lemma_lex_common_prefix(a: Seq<char>, b: Seq<char>, i: int)
    requires
        0 <= i <= a.len(),
        0 <= i <= b.len(),
        forall|j: int| 0 <= j < i ==> a[j] == b[j],
    ensures
        lex_lt(a, b) == lex_lt(a.skip(i), b.skip(i)),
    decreases i,
{
    if i > 0 {
        if a.len() > 0 && b.len() > 0 {
            assert(a.drop_first().skip(i - 1) =~= a.skip(i));
            assert(b.drop_first().skip(i - 1) =~= b.skip(i));
            lemma_lex_common_prefix(a.drop_first(), b.drop_first(), i - 1);
        }
    } else {
        assert(a.skip(0) =~= a);
        assert(b.skip(0) =~= b);
    }
}

/// Result of a three-way string comparison.
#[derive(Clone, Copy, Debug, PartialEq, Eq, Structural)]
pub enum KeyOrder {
    Less,
    Equal,
    Greater,
}

/// Three-way comparison of two strings in lexicographic code-point order.
pub fn str_compare(a: &str, b: &str) -> (c: KeyOrder)
    ensures
        c == KeyOrder::Less <==> lex_lt(a@, b@),
        c == KeyOrder::Equal <==> a@ == b@,
        c == KeyOrder::Greater <==> lex_lt(b@, a@),
{
    let a_len = a.unicode_len();
    let b_len = b.unicode_len();
    let mut i: usize = 0;
    loop
        invariant
            i <= a_len,
            i <= b_len,
            a_len == a@.len(),
            b_len == b@.len(),
            forall|j: int| 0 <= j < i ==> a@[j] == b@[j],
        decreases a_len - i,
    {
        proof {
            lemma_lex_common_prefix(a@, b@, i as int);
            lemma_lex_trichotomy(a@, b@);
        }
        if i >= a_len && i >= b_len {
            proof {
                assert(a@ =~= b@);
            }
            return KeyOrder::Equal;
        }
        if i >= a_len {
            return KeyOrder::Less;
        }
        if i >= b_len {
            return KeyOrder::Greater;
        }
        let ca = a.get_char(i);
        let cb = b.get_char(i);
        let ua = ca as u32;
        let ub = cb as u32;
        if ua < ub {
            return KeyOrder::Less;
        }
        if ub < ua {
            return KeyOrder::Greater;
        }
        proof {
            vstd::utf8::char_u32_cast(ca, ua);
            vstd::utf8::char_u32_cast(cb, ub);
        }
        i = i + 1;
    }
}

/// Three-way comparison of (user, key) pairs, user first, then key.
pub fn pair_compare(user_a: &str, key_a: &str, user_b: &str, key_b: &str) -> (c: KeyOrder)
    ensures
        c == KeyOrder::Less <==> pair_lt((user_a@, key_a@), (user_b@, key_b@)),
        c == KeyOrder::Equal <==> (user_a@ == user_b@ && key_a@ == key_b@),
        c == KeyOrder::Greater <==> pair_lt((user_b@, key_b@), (user_a@, key_a@)),
{
    proof {
        lemma_lex_trichotomy(user_a@, user_b@);
        lemma_lex_trichotomy(key_a@, key_b@);
    }
    match str_compare(user_a, user_b) {
        KeyOrder::Less => KeyOrder::Less,
        KeyOrder::Greater => KeyOrder::Greater,
        KeyOrder::Equal => str_compare(key_a, key_b),
    }
}

} // verus!
