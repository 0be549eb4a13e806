//! Lexicographic order on character sequences, used to keep folder records in
//! a deterministic total order. Characters compare by their scalar value, so
//! the order agrees with the byte order of the UTF-8 encodings.
use vstd::prelude::*;

verus! {

/// `a` is strictly below `b` once the first `i` characters have been found
/// equal.
pub open spec fn seq_lt_from(a: Seq<char>, b: Seq<char>, i: int) -> bool
    recommends
        0 <= i,
    decreases b.len() - i,
{
    if i >= b.len() {
        false
    } else if i >= a.len() {
        true
    } else if a[i] != b[i] {
        (a[i] as u32) < (b[i] as u32)
    } else {
        seq_lt_from(a, b, i + 1)
    }
}

/// Strict lexicographic order on character sequences.
pub open spec fn seq_lt(a: Seq<char>, b: Seq<char>) -> bool {
    seq_lt_from(a, b, 0)
}

pub proof fn lemma_seq_lt_from_irreflexive(a: Seq<char>, i: int)
    requires
        0 <= i,
    ensures
        !seq_lt_from(a, a, i),
    decreases a.len() - i,
{
    if i < a.len() {
        lemma_seq_lt_from_irreflexive(a, i + 1);
    }
}

/// Two sequences that agree on their first `i` characters are equal from `i`
/// on, or one is strictly below the other.
pub proof fn lemma_seq_lt_from_trichotomy(a: Seq<char>, b: Seq<char>, i: int)
    requires
        0 <= i,
        i <= a.len(),
        i <= b.len(),
    ensures
        seq_lt_from(a, b, i) || seq_lt_from(b, a, i) || a.skip(i) =~= b.skip(i),
    decreases a.len() + b.len() - 2 * i,
{
    if i >= b.len() {
        if i >= a.len() {
            assert(a.skip(i) =~= b.skip(i));
        }
    } else if i < a.len() && a[i] != b[i] {
        assert((a[i] as u32) != (b[i] as u32)) by {
            vstd::utf8::char_u32_cast(a[i], a[i] as u32);
            vstd::utf8::char_u32_cast(b[i], b[i] as u32);
        }
    } else if i < a.len() && a[i] == b[i] {
        lemma_seq_lt_from_trichotomy(a, b, i + 1);
        if !seq_lt_from(a, b, i + 1) && !seq_lt_from(b, a, i + 1) {
            assert(a.skip(i) =~= b.skip(i)) by {
                assert(a.skip(i + 1) =~= b.skip(i + 1));
                assert forall|k: int| 0 <= k < a.skip(i).len() implies a.skip(i)[k] == b.skip(
                    i,
                )[k] by {
                    if k > 0 {
                        assert(a.skip(i)[k] == a.skip(i + 1)[k - 1]);
                        assert(b.skip(i)[k] == b.skip(i + 1)[k - 1]);
                    }
                }
            }
        }
    }
}

pub proof fn lemma_seq_lt_trichotomy(a: Seq<char>, b: Seq<char>)
    ensures
        seq_lt(a, b) || seq_lt(b, a) || a == b,
{
    lemma_seq_lt_from_trichotomy(a, b, 0);
    if !seq_lt(a, b) && !seq_lt(b, a) {
        assert(a.skip(0) =~= a);
        assert(b.skip(0) =~= b);
    }
}

pub proof fn lemma_seq_lt_from_transitive(a: Seq<char>, b: Seq<char>, c: Seq<char>, i: int)
    requires
        0 <= i,
        seq_lt_from(a, b, i),
        seq_lt_from(b, c, i),
    ensures
        seq_lt_from(a, c, i),
    decreases a.len() + b.len() + c.len() - 3 * i,
{
    if i < a.len() && i < b.len() && i < c.len() && a[i] == b[i] && b[i] == c[i] {
        lemma_seq_lt_from_transitive(a, b, c, i + 1);
    }
}

pub proof fn lemma_seq_lt_transitive(a: Seq<char>, b: Seq<char>, c: Seq<char>)
    requires
        seq_lt(a, b),
        seq_lt(b, c),
    ensures
        seq_lt(a, c),
{
    lemma_seq_lt_from_transitive(a, b, c, 0);
}

fn str_lt_from(a: &str, b: &str, i: usize, la: usize, lb: usize) -> (r: bool)
    requires
        la == a@.len(),
        lb == b@.len(),
        i <= la,
        i <= lb,
    ensures
        r == seq_lt_from(a@, b@, i as int),
    decreases lb - i,
{
    if i >= lb {
        false
    } else if i >= la {
        true
    } else {
        let ca = a.get_char(i);
        let cb = b.get_char(i);
        if ca == cb {
            str_lt_from(a, b, i + 1, la, lb)
        } else {
            (ca as u32) < (cb as u32)
        }
    }
}

/// Decides the strict lexicographic order on the character sequences of two
/// string slices.
pub fn str_lt(a: &str, b: &str) -> (r: bool)
    ensures
        r == seq_lt(a@, b@),
{
    let la = a.unicode_len();
    let lb = b.unicode_len();
    str_lt_from(a, b, 0, la, lb)
}

} // verus!
