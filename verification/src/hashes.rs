//! Ordering and identity of commit hash strings.
//!
//! A hash reference is a string: either a full SHA or an abbreviation of
//! one. Two references denote the same commit exactly when one is a prefix
//! of the other. The reconciler sorts references lexicographically, which
//! places every abbreviation directly before its extensions.

use vstd::prelude::*;

verus! {

/// Lexicographic order on character sequences, by code point: the empty
/// sequence comes first, and a proper prefix precedes its extensions.
pub open spec fn lex_le(a: Seq<char>, b: Seq<char>) -> bool
    decreases a.len(),
{
    if a.len() == 0 {
        true
    } else if b.len() == 0 {
        false
    } else if (a[0] as u32) < (b[0] as u32) {
        true
    } else if (b[0] as u32) < (a[0] as u32) {
        false
    } else {
        lex_le(a.subrange(1, a.len() as int), b.subrange(1, b.len() as int))
    }
}

/// Two hash references denote the same commit exactly when one is a
/// prefix of the other.
pub open spec fn same_commit(a: Seq<char>, b: Seq<char>) -> bool {
    a.is_prefix_of(b) || b.is_prefix_of(a)
}

/// The character sequences of a sequence of strings.
pub open spec fn string_views(s: Seq<String>) -> Seq<Seq<char>> {
    s.map_values(|x: String| x@)
}

/// Characters with the same code point are the same character.
proof fn lemma_char_eq(a: char, b: char)
    requires
        a as u32 == b as u32,
    ensures
        a == b,
{
    vstd::utf8::char_u32_cast(a, a as u32);
    vstd::utf8::char_u32_cast(b, b as u32);
}

/// `lex_le` is total: of any two sequences, one is less than or equal to
/// the other.
pub proof fn lemma_lex_le_total(a: Seq<char>, b: Seq<char>)
    ensures
        lex_le(a, b) || lex_le(b, a),
    decreases a.len(),
{
    if a.len() == 0 || b.len() == 0 {
    } else if (a[0] as u32) < (b[0] as u32) || (b[0] as u32) < (a[0] as u32) {
    } else {
        lemma_lex_le_total(a.subrange(1, a.len() as int), b.subrange(1, b.len() as int));
    }
}

/// `lex_le` is antisymmetric: sequences less than or equal to each other
/// are equal.
pub proof fn lemma_lex_le_antisymmetric(a: Seq<char>, b: Seq<char>)
    requires
        lex_le(a, b),
        lex_le(b, a),
    ensures
        a == b,
    decreases a.len(),
{
    if a.len() == 0 {
        assert(b.len() == 0);
        assert(a =~= b);
    } else {
        assert(b.len() > 0);
        lemma_char_eq(a[0], b[0]);
        let a1 = a.subrange(1, a.len() as int);
        let b1 = b.subrange(1, b.len() as int);
        lemma_lex_le_antisymmetric(a1, b1);
        assert(a =~= b) by {
            assert(forall|i: int| 1 <= i < a.len() ==> a[i] == a1[i - 1] && b[i] == b1[i - 1]);
        }
    }
}

/// `lex_le` is transitive.
pub proof fn lemma_lex_le_transitive(a: Seq<char>, b: Seq<char>, c: Seq<char>)
    requires
        lex_le(a, b),
        lex_le(b, c),
    ensures
        lex_le(a, c),
    decreases a.len(),
{
    if a.len() == 0 || b.len() == 0 || c.len() == 0 {
    } else if (a[0] as u32) == (b[0] as u32) && (b[0] as u32) == (c[0] as u32) {
        lemma_lex_le_transitive(
            a.subrange(1, a.len() as int),
            b.subrange(1, b.len() as int),
            c.subrange(1, c.len() as int),
        );
    }
}

/// A prefix is less than or equal to every one of its extensions.
pub proof fn lemma_prefix_lex_le(a: Seq<char>, b: Seq<char>)
    requires
        a.is_prefix_of(b),
    ensures
        lex_le(a, b),
    decreases a.len(),
{
    if a.len() == 0 {
    } else {
        assert(a[0] == b.subrange(0, a.len() as int)[0]);
        let a1 = a.subrange(1, a.len() as int);
        let b1 = b.subrange(1, b.len() as int);
        assert(a1.is_prefix_of(b1)) by {
            assert(a1 =~= b1.subrange(0, a1.len() as int)) by {
                assert(forall|i: int|
                    0 <= i < a1.len() ==> a1[i] == a[i + 1] && b1.subrange(0, a1.len() as int)[i]
                        == b[i + 1]);
                assert(forall|i: int|
                    0 <= i < a.len() ==> a[i] == b.subrange(0, a.len() as int)[i]);
            }
        }
        lemma_prefix_lex_le(a1, b1);
    }
}

/// A prefix cannot be skipped over in lexicographic order: anything that
/// lies between a sequence and one of its extensions is itself an
/// extension of that sequence.
pub proof fn lemma_lex_between(u: Seq<char>, v: Seq<char>, w: Seq<char>)
    requires
        lex_le(u, v),
        lex_le(v, w),
        u.is_prefix_of(w),
    ensures
        u.is_prefix_of(v),
    decreases u.len(),
{
    if u.len() == 0 {
        assert(u =~= v.subrange(0, 0));
    } else {
        assert(v.len() > 0);
        assert(w.len() > 0);
        assert(u[0] == w.subrange(0, u.len() as int)[0]);
        // u[0] <= v[0] <= w[0] == u[0], so all first characters agree.
        lemma_char_eq(u[0], v[0]);
        let u1 = u.subrange(1, u.len() as int);
        let v1 = v.subrange(1, v.len() as int);
        let w1 = w.subrange(1, w.len() as int);
        assert(u1.is_prefix_of(w1)) by {
            assert(u1 =~= w1.subrange(0, u1.len() as int)) by {
                assert(forall|i: int|
                    0 <= i < u1.len() ==> u1[i] == u[i + 1] && w1.subrange(0, u1.len() as int)[i]
                        == w[i + 1]);
                assert(forall|i: int|
                    0 <= i < u.len() ==> u[i] == w.subrange(0, u.len() as int)[i]);
            }
        }
        lemma_lex_between(u1, v1, w1);
        assert(u =~= v.subrange(0, u.len() as int)) by {
            assert(forall|i: int|
                0 <= i < u1.len() ==> u1[i] == v1.subrange(0, u1.len() as int)[i]);
            assert(forall|i: int|
                1 <= i < u.len() ==> u[i] == u1[i - 1] && v[i] == v1[i - 1]);
        }
    }
}

/// Decides `lex_le` on two strings.
pub fn str_lex_le(a: &str, b: &str) -> (r: bool)
    ensures
        r == lex_le(a@, b@),
{
    let a_len = a.unicode_len();
    let b_len = b.unicode_len();
    proof {
        assert(a@.subrange(0, a_len as int) =~= a@);
        assert(b@.subrange(0, b_len as int) =~= b@);
    }
    let mut i: usize = 0;
    loop
        invariant
            i <= a_len,
            i <= b_len,
            a_len == a@.len(),
            b_len == b@.len(),
            lex_le(a@, b@) == lex_le(
                a@.subrange(i as int, a_len as int),
                b@.subrange(i as int, b_len as int),
            ),
        decreases a_len - i,
    {
        let ghost a_rest = a@.subrange(i as int, a_len as int);
        let ghost b_rest = b@.subrange(i as int, b_len as int);
        if i == a_len {
            assert(a_rest.len() == 0);
            return true;
        }
        if i == b_len {
            assert(b_rest.len() == 0);
            return false;
        }
        let ca = a.get_char(i);
        let cb = b.get_char(i);
        assert(a_rest[0] == a@[i as int]);
        assert(b_rest[0] == b@[i as int]);
        if (ca as u32) < (cb as u32) {
            return true;
        }
        if (cb as u32) < (ca as u32) {
            return false;
        }
        assert(a_rest.subrange(1, a_rest.len() as int) =~= a@.subrange(
            i + 1,
            a_len as int,
        ));
        assert(b_rest.subrange(1, b_rest.len() as int) =~= b@.subrange(
            i + 1,
            b_len as int,
        ));
        i = i + 1;
    }
}

/// Decides whether `a` is a prefix of `b`.
pub fn str_is_prefix(a: &str, b: &str) -> (r: bool)
    ensures
        r == a@.is_prefix_of(b@),
{
    let a_len = a.unicode_len();
    let b_len = b.unicode_len();
    if a_len > b_len {
        return false;
    }
    let mut i: usize = 0;
    while i < a_len
        invariant
            i <= a_len,
            a_len <= b_len,
            a_len == a@.len(),
            b_len == b@.len(),
            forall|j: int| 0 <= j < i ==> a@[j] == b@[j],
        decreases a_len - i,
    {
        let ca = a.get_char(i);
        let cb = b.get_char(i);
        if ca != cb {
            assert(a@ != b@.subrange(0, a@.len() as int)) by {
                assert(b@.subrange(0, a@.len() as int)[i as int] == b@[i as int]);
            }
            return false;
        }
        i = i + 1;
    }
    assert(a@ =~= b@.subrange(0, a@.len() as int));
    true
}

/// Decides whether two strings hold the same characters.
pub fn str_eq(a: &str, b: &str) -> (r: bool)
    ensures
        r == (a@ == b@),
{
    let a_len = a.unicode_len();
    let b_len = b.unicode_len();
    if a_len != b_len {
        return false;
    }
    let r = str_is_prefix(a, b);
    proof {
        if a@.is_prefix_of(b@) {
            assert(a@ =~= b@);
        } else {
            assert(a@ != b@) by {
                if a@ == b@ {
                    assert(a@ =~= b@.subrange(0, a@.len() as int));
                }
            }
        }
    }
    r
}

/// Decides the prefix identity rule: whether `a` and `b` denote the same
/// commit.
pub fn is_same_commit(a: &str, b: &str) -> (r: bool)
    ensures
        r == same_commit(a@, b@),
{
    if str_is_prefix(a, b) {
        true
    } else {
        str_is_prefix(b, a)
    }
}

} // verus!
