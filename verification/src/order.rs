//! Lexicographic order on token text and its agreement with numeric order.

use vstd::prelude::*;

use crate::codec::{
    all_canonical, is_canonical_symbol, is_symbol, symbol_value, token_value,
};

verus! {

/// Strict lexicographic order on byte sequences.
pub open spec fn lex_lt(a: Seq<u8>, b: Seq<u8>) -> bool
    decreases a.len(),
{
    if a.len() == 0 {
        b.len() > 0
    } else if b.len() == 0 {
        false
    } else {
        a[0] < b[0] || (a[0] == b[0] && lex_lt(a.skip(1), b.skip(1)))
    }
}

/// 36 to the power `n`.
pub open spec fn pow36(n: nat) -> nat
    decreases n,
{
    if n == 0 {
        1
    } else {
        36 * pow36((n - 1) as nat)
    }
}

/// A token of `n` digits is worth less than 36^n.
pub proof fn lemma_value_bound(s: Seq<u8>)
    ensures
        token_value(s) < pow36(s.len()),
    decreases s.len(),
{
    if s.len() > 0 {
        let t = s.drop_last();
        lemma_value_bound(t);
        assert(symbol_value(s.last()) < 36);
        assert(token_value(t) < pow36(t.len()) ==> token_value(t) * 36 + 36 <= pow36(t.len()) * 36)
            by (nonlinear_arith);
        assert(pow36(s.len()) == 36 * pow36(t.len()));
    }
}

/// Front decomposition: the first digit weighs 36^(n-1).
pub proof fn lemma_front_value(s: Seq<u8>)
    requires
        s.len() > 0,
    ensures
        token_value(s) == symbol_value(s[0]) * pow36((s.len() - 1) as nat) + token_value(s.skip(1)),
    decreases s.len(),
{
    if s.len() == 1 {
        assert(s.drop_last() =~= Seq::<u8>::empty());
        assert(s.skip(1) =~= Seq::<u8>::empty());
        assert(token_value(Seq::<u8>::empty()) == 0);
        assert(pow36(0) == 1);
        assert(token_value(s) == token_value(s.drop_last()) * 36 + symbol_value(s.last()));
        assert(s.last() == s[0]);
        assert(token_value(s) == symbol_value(s[0]));
        let p = pow36((s.len() - 1) as nat);
        assert(p == 1);
        assert(symbol_value(s[0]) * p == symbol_value(s[0])) by (nonlinear_arith)
            requires
                p == 1,
        ;
    } else {
        let t = s.drop_last();
        lemma_front_value(t);
        let p = pow36((t.len() - 1) as nat);
        assert(t.skip(1) =~= s.skip(1).drop_last());
        assert(s.skip(1).last() == s.last());
        assert(token_value(s.skip(1)) == token_value(t.skip(1)) * 36 + symbol_value(s.last()));
        assert(token_value(s) == token_value(t) * 36 + symbol_value(s.last()));
        assert(token_value(t) == symbol_value(t[0]) * p + token_value(t.skip(1)));
        assert((symbol_value(t[0]) * p + token_value(t.skip(1))) * 36 == symbol_value(t[0]) * (p
            * 36) + token_value(t.skip(1)) * 36) by (nonlinear_arith);
        assert(pow36(((s.len() - 1)) as nat) == 36 * p);
        assert(symbol_value(t[0]) * (p * 36) == symbol_value(s[0]) * pow36((s.len() - 1) as nat))
            by (nonlinear_arith)
            requires
                t[0] == s[0],
                pow36((s.len() - 1) as nat) == 36 * p,
        ;
    }
}

/// The canonical alphabet is spelled in order: a smaller canonical byte is a
/// smaller digit.
pub proof fn lemma_symbol_monotone(b1: u8, b2: u8)
    requires
        is_canonical_symbol(b1),
        is_canonical_symbol(b2),
        b1 < b2,
    ensures
        symbol_value(b1) < symbol_value(b2),
{
}

/// Lexicographically smaller canonical text of equal width has the smaller
/// numeric value.
pub proof fn lemma_lex_lt_value(a: Seq<u8>, b: Seq<u8>)
    requires
        a.len() == b.len(),
        all_canonical(a),
        all_canonical(b),
        lex_lt(a, b),
    ensures
        token_value(a) < token_value(b),
    decreases a.len(),
{
    let p = pow36((a.len() - 1) as nat);
    lemma_front_value(a);
    lemma_front_value(b);
    if a[0] < b[0] {
        lemma_symbol_monotone(a[0], b[0]);
        lemma_value_bound(a.skip(1));
        assert(token_value(a) < symbol_value(a[0]) * p + p);
        assert(symbol_value(a[0]) * p + p == (symbol_value(a[0]) + 1) * p) by (nonlinear_arith);
        assert((symbol_value(a[0]) + 1) * p <= symbol_value(b[0]) * p) by (nonlinear_arith)
            requires
                symbol_value(a[0]) + 1 <= symbol_value(b[0]),
                p >= 0,
        ;
        assert(symbol_value(b[0]) * p <= token_value(b));
    } else {
        assert(a[0] == b[0]);
        assert(forall|i: int| 0 <= i < a.skip(1).len() ==> is_canonical_symbol(#[trigger] a.skip(
            1,
        )[i]));
        assert(forall|i: int| 0 <= i < b.skip(1).len() ==> is_canonical_symbol(#[trigger] b.skip(
            1,
        )[i]));
        lemma_lex_lt_value(a.skip(1), b.skip(1));
    }
}

/// Equal-width sequences are totally ordered by `lex_lt`.
pub proof fn lemma_lex_trichotomy(a: Seq<u8>, b: Seq<u8>)
    requires
        a.len() == b.len(),
        a != b,
    ensures
        lex_lt(a, b) || lex_lt(b, a),
    decreases a.len(),
{
    if a.len() == 0 {
        assert(a =~= b);
    } else if a[0] == b[0] {
        if a.skip(1) == b.skip(1) {
            assert forall|i: int| 0 <= i < a.len() implies a[i] == b[i] by {
                if i > 0 {
                    assert(a.skip(1)[i - 1] == a[i]);
                    assert(b.skip(1)[i - 1] == b[i]);
                }
            }
            assert(a =~= b);
        } else {
            lemma_lex_trichotomy(a.skip(1), b.skip(1));
        }
    }
}

/// Order-agreement law: over canonical well-formed tokens of equal width,
/// lexicographic order on the text coincides with numeric order on the
/// decoded integer value.
pub proof fn lemma_text_order_matches_value_order(a: Seq<u8>, b: Seq<u8>)
    requires
        a.len() == b.len(),
        all_canonical(a),
        all_canonical(b),
    ensures
        lex_lt(a, b) <==> token_value(a) < token_value(b),
{
    if lex_lt(a, b) {
        lemma_lex_lt_value(a, b);
    } else if token_value(a) < token_value(b) {
        if a == b {
            assert(token_value(a) == token_value(b));
        } else {
            lemma_lex_trichotomy(a, b);
            assert(lex_lt(b, a));
            lemma_lex_lt_value(b, a);
        }
    }
}

/// If two sequences agree on their first `i` items, their order is decided
/// by the rest.
pub proof fn lemma_lex_skip_prefix(a: Seq<u8>, b: Seq<u8>, i: int)
    requires
        0 <= i <= a.len(),
        i <= b.len(),
        forall|j: int| 0 <= j < i ==> a[j] == b[j],
    ensures
        lex_lt(a, b) == lex_lt(a.skip(i), b.skip(i)),
    decreases i,
{
    if i > 0 {
        assert(a.len() > 0 && b.len() > 0);
        assert(a[0] == b[0]);
        assert forall|j: int| 0 <= j < i - 1 implies a.skip(1)[j] == b.skip(1)[j] by {
            assert(a.skip(1)[j] == a[j + 1]);
            assert(b.skip(1)[j] == b[j + 1]);
        }
        lemma_lex_skip_prefix(a.skip(1), b.skip(1), i - 1);
        assert(a.skip(1).skip(i - 1) =~= a.skip(i));
        assert(b.skip(1).skip(i - 1) =~= b.skip(i));
        assert(lex_lt(a, b) == lex_lt(a.skip(1), b.skip(1)));
    } else {
        assert(a.skip(0) =~= a);
        assert(b.skip(0) =~= b);
    }
}

/// No sequence is lexicographically below itself.
pub proof fn lemma_lex_irreflexive(a: Seq<u8>)
    ensures
        !lex_lt(a, a),
    decreases a.len(),
{
    if a.len() > 0 {
        lemma_lex_irreflexive(a.skip(1));
    }
}

/// Decides whether `a` is lexicographically greater than `b`.
pub fn lex_gt(a: &Vec<u8>, b: &Vec<u8>) -> (r: bool)
    requires
        a@.len() == b@.len(),
    ensures
        r == lex_lt(b@, a@),
{
    let n = a.len();
    let mut i: usize = 0;
    while i < n
        invariant
            0 <= i <= n,
            a@.len() == n,
            b@.len() == n,
            forall|j: int| 0 <= j < i ==> a@[j] == b@[j],
        decreases n - i,
    {
        if a[i] != b[i] {
            proof {
                lemma_lex_skip_prefix(b@, a@, i as int);
            }
            return b[i] < a[i];
        }
        i = i + 1;
    }
    proof {
        assert(a@ =~= b@);
        lemma_lex_irreflexive(a@);
    }
    false
}

} // verus!
