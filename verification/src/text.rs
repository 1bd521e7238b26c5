//! Lexicographic order on strings (by Unicode code point), the order in
//! which station identifiers and day keys are sorted, together with a
//! verified three-way comparison on `&str`.

use vstd::prelude::*;
use vstd::string::*;

verus! {

/// `a` comes strictly before `b` in lexicographic (codepoint) order.
pub open spec fn lex_lt(a: Seq<char>, b: Seq<char>) -> bool
    decreases a.len(),
{
    if b.len() == 0 {
        false
    } else if a.len() == 0 {
        true
    } else if (a[0] as int) < (b[0] as int) {
        true
    } else if (a[0] as int) > (b[0] as int) {
        false
    } else {
        lex_lt(a.skip(1), b.skip(1))
    }
}

/// Of two distinct strings, one comes strictly before the other.
pub proof fn lemma_lex_lt_connected(a: Seq<char>, b: Seq<char>)
    ensures
        a != b ==> lex_lt(a, b) || lex_lt(b, a),
    decreases a.len(),
{
    if a.len() != 0 && b.len() != 0 && a[0] == b[0] {
        lemma_lex_lt_connected(a.skip(1), b.skip(1));
        if a.skip(1) == b.skip(1) {
            assert(a.skip(1).len() == a.len() - 1);
            assert(b.skip(1).len() == b.len() - 1);
            assert forall|i: int| 0 <= i < a.len() implies a[i] == b[i] by {
                if i >= 1 {
                    assert(a[i] == a.skip(1)[i - 1]);
                    assert(b[i] == b.skip(1)[i - 1]);
                }
            }
            assert(a =~= b);
        }
    } else if a.len() == 0 && b.len() == 0 {
        assert(a =~= b);
    }
}

/// A string never comes before itself.
pub proof fn lemma_lex_lt_irreflexive(a: Seq<char>)
    ensures
        !lex_lt(a, a),
    decreases a.len(),
{
    if a.len() != 0 {
        lemma_lex_lt_irreflexive(a.skip(1));
    }
}

/// Lexicographic order is transitive.
pub proof fn lemma_lex_lt_transitive(a: Seq<char>, b: Seq<char>, c: Seq<char>)
    requires
        lex_lt(a, b),
        lex_lt(b, c),
    ensures
        lex_lt(a, c),
    decreases a.len(),
{
    if a.len() != 0 && b.len() != 0 && c.len() != 0 && a[0] == b[0] && b[0] == c[0] {
        lemma_lex_lt_transitive(a.skip(1), b.skip(1), c.skip(1));
    }
}

/// Three-way comparison of two strings in lexicographic codepoint order:
/// negative when `a` comes first, zero when equal, positive when `b` comes
/// first.
pub fn str_compare(a: &str, b: &str) -> (r: i8)
    ensures
        r < 0 <==> lex_lt(a@, b@),
        r > 0 <==> lex_lt(b@, a@),
        r == 0 <==> a@ == b@,
{
    let a_len = a.unicode_len();
    let b_len = b.unicode_len();
    let mut i: usize = 0;
    loop
        invariant
            i <= a_len <= usize::MAX,
            i <= b_len <= usize::MAX,
            a_len == a@.len(),
            b_len == b@.len(),
            a@.take(i as int) == b@.take(i as int),
        decreases a_len - i,
    {
        proof {
            lemma_lex_lt_prefix(a@, b@, i as int);
        }
        if i == a_len || i == b_len {
            if a_len < b_len {
                return -1;
            } else if a_len > b_len {
                return 1;
            } else {
                assert(a@ =~= b@);
                proof {
                    lemma_lex_lt_irreflexive(a@);
                }
                return 0;
            }
        }
        let ca = a.get_char(i);
        let cb = b.get_char(i);
        if (ca as u32) < (cb as u32) {
            return -1;
        } else if (ca as u32) > (cb as u32) {
            return 1;
        }
        proof {
            assert(a@.take(i + 1) =~= a@.take(i as int).push(a@[i as int]));
            assert(b@.take(i + 1) =~= b@.take(i as int).push(b@[i as int]));
        }
        i = i + 1;
    }
}

/// When two strings agree on their first `i` characters, their order is
/// decided by what follows: the shorter is smaller when one ends at `i`,
/// and otherwise the characters at position `i` decide (or leave the
/// decision to the rest).
proof fn lemma_lex_lt_prefix(a: Seq<char>, b: Seq<char>, i: int)
    requires
        0 <= i <= a.len(),
        0 <= i <= b.len(),
        a.take(i) == b.take(i),
    ensures
        i == a.len() && i < b.len() ==> lex_lt(a, b) && !lex_lt(b, a),
        i == b.len() && i < a.len() ==> lex_lt(b, a) && !lex_lt(a, b),
        i == a.len() && i == b.len() ==> a == b,
        i < a.len() && i < b.len() && (a[i] as int) < (b[i] as int) ==> lex_lt(a, b) && !lex_lt(
            b,
            a,
        ),
        i < a.len() && i < b.len() && (b[i] as int) < (a[i] as int) ==> lex_lt(b, a) && !lex_lt(
            a,
            b,
        ),
    decreases i,
{
    if i == 0 {
        if a.len() == 0 && b.len() == 0 {
            assert(a =~= b);
        }
    } else {
        assert(a[0] == a.take(i)[0]);
        assert(b[0] == b.take(i)[0]);
        assert(a.skip(1).take(i - 1) =~= a.take(i).skip(1));
        assert(b.skip(1).take(i - 1) =~= b.take(i).skip(1));
        lemma_lex_lt_prefix(a.skip(1), b.skip(1), i - 1);
        if i == a.len() && i == b.len() {
            assert(a =~= a.take(i));
        }
        assert(a.len() != 0 && b.len() != 0 && a[0] == b[0]);
        if i < a.len() {
            assert(a.skip(1)[i - 1] == a[i]);
        }
        if i < b.len() {
            assert(b.skip(1)[i - 1] == b[i]);
        }
    }
}

/// Relies on `String::push` from std: it appends exactly the one
/// character to the end of the string.
#[verifier::external_body]
pub fn push_char(s: &mut String, c: char)
    ensures
        final(s)@ == old(s)@.push(c),
{
    s.push(c);
}

} // verus!
