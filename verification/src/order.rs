//! Lexicographic order on strings, used to keep hook fanout deterministic:
//! hooks are stored and returned sorted by (namespace, name).

use vstd::prelude::*;

verus! {

/// Strict lexicographic order on character sequences, by unicode scalar
/// value; a proper prefix comes first.
pub open spec fn lex_lt(a: Seq<char>, b: Seq<char>) -> bool
    decreases a.len(),
{
    if b.len() == 0 {
        false
    } else if a.len() == 0 {
        true
    } else if a.first() != b.first() {
        (a.first() as u32) < (b.first() as u32)
    } else {
        lex_lt(a.drop_first(), b.drop_first())
    }
}

/// Nothing comes before itself.
pub proof fn lemma_lex_lt_irreflexive(a: Seq<char>)
    ensures
        !lex_lt(a, a),
    decreases a.len(),
{
    if a.len() > 0 {
        lemma_lex_lt_irreflexive(a.drop_first());
    }
}

/// The order is transitive.
pub proof fn lemma_lex_lt_transitive(a: Seq<char>, b: Seq<char>, c: Seq<char>)
    requires
        lex_lt(a, b),
        lex_lt(b, c),
    ensures
        lex_lt(a, c),
    decreases a.len(),
{
    if b.len() == 0 || c.len() == 0 {
        // lex_lt(a, b) needs b nonempty; lex_lt(b, c) needs c nonempty.
    } else if a.len() == 0 {
    } else {
        let af = a.first();
        let bf = b.first();
        let cf = c.first();
        if af == bf && bf == cf {
            lemma_lex_lt_transitive(a.drop_first(), b.drop_first(), c.drop_first());
        }
    }
}

/// How two values compare.
pub enum Cmp {
    Less,
    Equal,
    Greater,
}

/// Compare two strings in lexicographic order.
pub fn str_cmp(a: &String, b: &String) -> (r: Cmp)
    ensures
        r is Equal <==> a@ == b@,
        r is Less <==> lex_lt(a@, b@),
        r is Greater <==> lex_lt(b@, a@),
{
    let a_len = a.as_str().unicode_len();
    let b_len = b.as_str().unicode_len();
    let mut i: usize = 0;
    loop
        invariant
            a_len == a@.len(),
            b_len == b@.len(),
            0 <= i <= a_len,
            0 <= i <= b_len,
            forall|j: int| 0 <= j < i ==> a@[j] == b@[j],
        decreases a_len - i,
    {
        proof {
            lemma_lex_lt_skip(a@, b@, i as int);
            lemma_lex_lt_skip(b@, a@, i as int);
        }
        if i >= a_len && i >= b_len {
            proof {
                assert(a@ =~= b@);
                lemma_lex_lt_irreflexive(a@);
            }
            return Cmp::Equal;
        }
        if i >= a_len {
            proof {
                assert(a@.skip(i as int).len() == 0);
                assert(b@.skip(i as int).len() > 0);
                assert(lex_lt(a@, b@));
                lemma_lex_lt_irreflexive(a@);
                if lex_lt(b@, a@) {
                    lemma_lex_lt_transitive(a@, b@, a@);
                }
                assert(a@.len() != b@.len());
            }
            return Cmp::Less;
        }
        if i >= b_len {
            proof {
                assert(b@.skip(i as int).len() == 0);
                assert(a@.skip(i as int).len() > 0);
                assert(lex_lt(b@, a@));
                lemma_lex_lt_irreflexive(b@);
                if lex_lt(a@, b@) {
                    lemma_lex_lt_transitive(b@, a@, b@);
                }
                assert(a@.len() != b@.len());
            }
            return Cmp::Greater;
        }
        let ca = a.as_str().get_char(i);
        let cb = b.as_str().get_char(i);
        if (ca as u32) < (cb as u32) {
            proof {
                assert(a@.skip(i as int).first() == ca);
                assert(b@.skip(i as int).first() == cb);
                assert(lex_lt(a@.skip(i as int), b@.skip(i as int)));
                lemma_lex_lt_irreflexive(a@);
                if lex_lt(b@, a@) {
                    lemma_lex_lt_transitive(a@, b@, a@);
                }
                if a@ == b@ {
                    assert(a@[i as int] == b@[i as int]);
                }
            }
            return Cmp::Less;
        }
        if (cb as u32) < (ca as u32) {
            proof {
                assert(a@.skip(i as int).first() == ca);
                assert(b@.skip(i as int).first() == cb);
                assert(lex_lt(b@.skip(i as int), a@.skip(i as int)));
                lemma_lex_lt_irreflexive(b@);
                if lex_lt(a@, b@) {
                    lemma_lex_lt_transitive(b@, a@, b@);
                }
                if a@ == b@ {
                    assert(a@[i as int] == b@[i as int]);
                }
            }
            return Cmp::Greater;
        }
        proof {
            assert(ca as u32 == cb as u32);
            assert(ca == cb) by {
                if ca != cb {
                    assert(ca as u32 != cb as u32);
                }
            }
            assert(a@[i as int] == b@[i as int]);
        }
        i = i + 1;
    }
}

/// Sequences that agree on their first `i` characters compare as their
/// remainders do.
proof fn lemma_lex_lt_skip(a: Seq<char>, b: Seq<char>, i: int)
    requires
        0 <= i <= a.len(),
        0 <= i <= b.len(),
        forall|j: int| 0 <= j < i ==> a[j] == b[j],
    ensures
        lex_lt(a, b) == lex_lt(a.skip(i), b.skip(i)),
    decreases i,
{
    if i > 0 {
        assert(a.len() > 0 && b.len() > 0);
        assert(a.first() == b.first());
        assert(lex_lt(a, b) == lex_lt(a.drop_first(), b.drop_first()));
        assert(a.drop_first().skip(i - 1) =~= a.skip(i));
        assert(b.drop_first().skip(i - 1) =~= b.skip(i));
        assert forall|j: int| 0 <= j < i - 1 implies a.drop_first()[j] == b.drop_first()[j] by {
            assert(a[j + 1] == b[j + 1]);
        }
        lemma_lex_lt_skip(a.drop_first(), b.drop_first(), i - 1);
    } else {
        assert(a.skip(0) =~= a);
        assert(b.skip(0) =~= b);
    }
}

/// Strict order on (namespace, name) keys: by namespace, then by name.
pub open spec fn key_lt(k1: (Seq<char>, Seq<char>), k2: (Seq<char>, Seq<char>)) -> bool {
    lex_lt(k1.0, k2.0) || (k1.0 == k2.0 && lex_lt(k1.1, k2.1))
}

/// Nothing comes before itself.
pub proof fn lemma_key_lt_irreflexive(k: (Seq<char>, Seq<char>))
    ensures
        !key_lt(k, k),
{
    lemma_lex_lt_irreflexive(k.0);
    lemma_lex_lt_irreflexive(k.1);
}

/// The key order is transitive.
pub proof fn lemma_key_lt_transitive(
    k1: (Seq<char>, Seq<char>),
    k2: (Seq<char>, Seq<char>),
    k3: (Seq<char>, Seq<char>),
)
    requires
        key_lt(k1, k2),
        key_lt(k2, k3),
    ensures
        key_lt(k1, k3),
{
    if lex_lt(k1.0, k2.0) && lex_lt(k2.0, k3.0) {
        lemma_lex_lt_transitive(k1.0, k2.0, k3.0);
    } else if k1.0 == k2.0 && k2.0 == k3.0 {
        lemma_lex_lt_transitive(k1.1, k2.1, k3.1);
    }
}

} // verus!
