//! Folder records derived from manifest files, their deterministic total
//! order, and the sort-and-deduplicate step that closes an install.
use vstd::prelude::*;

use crate::order::{
    lemma_seq_lt_from_irreflexive, lemma_seq_lt_transitive, lemma_seq_lt_trichotomy, seq_lt,
    str_lt,
};

verus! {

/// One physical top-level directory belonging to an addon: its stable
/// identity (derived from a manifest file) and its filesystem path.
#[derive(Clone, Debug)]
pub struct AddonFolder {
    pub id: String,
    pub path: String,
}

/// Two folder records carry the same identity and path.
pub open spec fn folder_key_eq(a: AddonFolder, b: AddonFolder) -> bool {
    a.id@ == b.id@ && a.path@ == b.path@
}

/// The natural order on folder records: by identity, then by path.
pub open spec fn folder_lt(a: AddonFolder, b: AddonFolder) -> bool {
    seq_lt(a.id@, b.id@) || (a.id@ == b.id@ && seq_lt(a.path@, b.path@))
}

/// Every pair of positions is strictly increasing, so the sequence is both
/// sorted and free of duplicates.
pub open spec fn strictly_sorted(s: Seq<AddonFolder>) -> bool {
    forall|i: int, j: int| 0 <= i < j < s.len() ==> folder_lt(s[i], s[j])
}

/// Some record in `s` carries the identity and path of `f`.
pub open spec fn has_key(s: Seq<AddonFolder>, f: AddonFolder) -> bool {
    exists|i: int| 0 <= i < s.len() && folder_key_eq(s[i], f)
}

pub proof fn lemma_folder_lt_irreflexive(a: AddonFolder, b: AddonFolder)
    requires
        folder_key_eq(a, b),
    ensures
        !folder_lt(a, b),
{
    lemma_seq_lt_from_irreflexive(a.id@, 0);
    lemma_seq_lt_from_irreflexive(a.path@, 0);
}

pub proof fn lemma_folder_trichotomy(a: AddonFolder, b: AddonFolder)
    ensures
        folder_lt(a, b) || folder_lt(b, a) || folder_key_eq(a, b),
{
    lemma_seq_lt_trichotomy(a.id@, b.id@);
    lemma_seq_lt_trichotomy(a.path@, b.path@);
}

pub proof fn lemma_folder_lt_transitive(a: AddonFolder, b: AddonFolder, c: AddonFolder)
    requires
        folder_lt(a, b),
        folder_lt(b, c),
    ensures
        folder_lt(a, c),
{
    lemma_seq_lt_from_irreflexive(a.id@, 0);
    lemma_seq_lt_from_irreflexive(b.id@, 0);
    if seq_lt(a.id@, b.id@) && seq_lt(b.id@, c.id@) {
        lemma_seq_lt_transitive(a.id@, b.id@, c.id@);
    }
    if a.id@ == b.id@ && b.id@ == c.id@ {
        lemma_seq_lt_transitive(a.path@, b.path@, c.path@);
    }
}

fn folder_key_eq_exec(a: &AddonFolder, b: &AddonFolder) -> (r: bool)
    ensures
        r == folder_key_eq(*a, *b),
{
    a.id == b.id && a.path == b.path
}

fn folder_lt_exec(a: &AddonFolder, b: &AddonFolder) -> (r: bool)
    ensures
        r == folder_lt(*a, *b),
{
    if str_lt(a.id.as_str(), b.id.as_str()) {
        true
    } else if a.id == b.id {
        str_lt(a.path.as_str(), b.path.as_str())
    } else {
        false
    }
}

/// Places `f` at its ordered position, or drops it when a record with the
/// same identity and path is already present.
fn insert_unique_sorted(out: &mut Vec<AddonFolder>, f: AddonFolder)
    requires
        strictly_sorted(old(out)@),
    ensures
        strictly_sorted(final(out)@),
        forall|g: AddonFolder|
            #[trigger] has_key(final(out)@, g) <==> has_key(old(out)@, g) || folder_key_eq(g, f),
{
    let n = out.len();
    let mut k: usize = 0;
    while k < n
        invariant
            n == out.len(),
            k <= n,
            out@ == old(out)@,
            strictly_sorted(out@),
            forall|i: int| 0 <= i < k ==> folder_lt(out@[i], f),
        decreases n - k,
    {
        if folder_key_eq_exec(&out[k], &f) {
            proof {
                assert(folder_key_eq(out@[k as int], f));
                assert forall|g: AddonFolder| #[trigger]
                    has_key(out@, g) <==> has_key(old(out)@, g) || folder_key_eq(g, f) by {
                    if folder_key_eq(g, f) {
                        assert(folder_key_eq(out@[k as int], g));
                    }
                }
            }
            return ;
        }
        if !folder_lt_exec(&out[k], &f) {
            proof {
                lemma_folder_trichotomy(out@[k as int], f);
                assert(folder_lt(f, out@[k as int]));
            }
            let ghost pre = out@;
            out.insert(k, f);
            proof {
                lemma_insert_effect(pre, f, k as int);
                assert forall|x: int, y: int|
                    0 <= x < y < out@.len() implies folder_lt(out@[x], out@[y]) by {
                    if x == k && y > k {
                        if y > k + 1 {
                            lemma_folder_lt_transitive(f, pre[k as int], pre[y - 1]);
                        }
                    } else if x < k && y == k {
                    } else if x < k && y > k {
                    }
                }
            }
            return ;
        }
        k += 1;
    }
    let ghost pre = out@;
    out.insert(n, f);
    proof {
        lemma_insert_effect(pre, f, n as int);
    }
}

/// Inserting an element relates the new sequence's positions and keys to the
/// old ones.
proof fn lemma_insert_effect(s: Seq<AddonFolder>, f: AddonFolder, k: int)
    requires
        0 <= k <= s.len(),
    ensures
        s.insert(k, f).len() == s.len() + 1,
        forall|i: int| 0 <= i < k ==> s.insert(k, f)[i] == s[i],
        forall|i: int| k < i < s.len() + 1 ==> s.insert(k, f)[i] == s[i - 1],
        s.insert(k, f)[k] == f,
        forall|g: AddonFolder|
            #[trigger] has_key(s.insert(k, f), g) <==> has_key(s, g) || folder_key_eq(g, f),
{
    let t = s.insert(k, f);
    assert forall|g: AddonFolder| #[trigger]
        has_key(t, g) <==> has_key(s, g) || folder_key_eq(g, f) by {
        if has_key(t, g) {
            let i = choose|i: int| 0 <= i < t.len() && folder_key_eq(t[i], g);
            if i == k {
                assert(folder_key_eq(g, f));
            } else if i < k {
                assert(folder_key_eq(s[i], g));
            } else {
                assert(folder_key_eq(s[i - 1], g));
            }
        }
        if has_key(s, g) {
            let i = choose|i: int| 0 <= i < s.len() && folder_key_eq(s[i], g);
            if i < k {
                assert(folder_key_eq(t[i], g));
            } else {
                assert(folder_key_eq(t[i + 1], g));
            }
        }
        if folder_key_eq(g, f) {
            assert(folder_key_eq(t[k], g));
        }
    }
}

/// Closes an install: sorts the collected folder records by identity and
/// path and collapses records with equal identity and path into one, so that
/// multi-manifest packages yield a single entry. The result holds exactly
/// the identities and paths of the input, each once, in increasing order.
pub fn finalize_folders(folders: Vec<AddonFolder>) -> (r: Vec<AddonFolder>)
    ensures
        strictly_sorted(r@),
        forall|g: AddonFolder| #[trigger] has_key(r@, g) <==> has_key(folders@, g),
{
    let ghost all = folders@;
    let mut v = folders;
    let mut out: Vec<AddonFolder> = Vec::new();
    proof {
        assert(all.subrange(0, all.len() as int) =~= all);
    }
    while v.len() > 0
        invariant
            v@.len() <= all.len(),
            v@ == all.subrange(0, v@.len() as int),
            strictly_sorted(out@),
            forall|g: AddonFolder| #[trigger]
                has_key(out@, g) <==> has_key(all.skip(v@.len() as int), g),
        decreases v.len(),
    {
        let ghost l = v@.len() as int;
        let f = v.pop().unwrap();
        proof {
            assert(all.subrange(0, l)[l - 1] == all[l - 1]);
            assert(v@ =~= all.subrange(0, l - 1));
            lemma_has_key_skip(all, l - 1);
        }
        insert_unique_sorted(&mut out, f);
    }
    proof {
        assert(all.skip(0) =~= all);
    }
    out
}

/// A record's key is in `s.skip(l)` exactly when it is the key of `s[l]` or
/// lies in `s.skip(l + 1)`.
proof fn lemma_has_key_skip(s: Seq<AddonFolder>, l: int)
    requires
        0 <= l < s.len(),
    ensures
        forall|g: AddonFolder|
            #[trigger] has_key(s.skip(l), g) <==> folder_key_eq(s[l], g) || has_key(
                s.skip(l + 1),
                g,
            ),
{
    let t = s.skip(l);
    let u = s.skip(l + 1);
    assert forall|g: AddonFolder| #[trigger]
        has_key(t, g) <==> folder_key_eq(s[l], g) || has_key(u, g) by {
        if has_key(t, g) {
            let i = choose|i: int| 0 <= i < t.len() && folder_key_eq(t[i], g);
            if i > 0 {
                assert(folder_key_eq(u[i - 1], g));
            }
        }
        if folder_key_eq(s[l], g) {
            assert(folder_key_eq(t[0], g));
        }
        if has_key(u, g) {
            let i = choose|i: int| 0 <= i < u.len() && folder_key_eq(u[i], g);
            assert(folder_key_eq(t[i + 1], g));
        }
    }
}

/// Law: a strictly sorted folder list holds each identity-and-path key at
/// most once, so an install that collected the same logical folder from
/// several manifests still returns it as a single record.
pub proof fn lemma_sorted_no_duplicate_keys(s: Seq<AddonFolder>)
    requires
        strictly_sorted(s),
    ensures
        forall|i: int, j: int| 0 <= i < j < s.len() ==> !folder_key_eq(s[i], s[j]),
{
    assert forall|i: int, j: int| 0 <= i < j < s.len() implies !folder_key_eq(s[i], s[j]) by {
        if folder_key_eq(s[i], s[j]) {
            lemma_folder_lt_irreflexive(s[i], s[j]);
        }
    }
}

/// Law: the sorted, deduplicated folder list is determined by the set of
/// identities and paths it holds. Two strictly sorted lists that hold the
/// same keys agree position by position, so repeating an install over the
/// same manifest records yields the same folder list.
pub proof fn lemma_sorted_unique(s1: Seq<AddonFolder>, s2: Seq<AddonFolder>)
    requires
        strictly_sorted(s1),
        strictly_sorted(s2),
        forall|g: AddonFolder| #[trigger] has_key(s1, g) <==> has_key(s2, g),
    ensures
        s1.len() == s2.len(),
        forall|i: int| 0 <= i < s1.len() ==> folder_key_eq(s1[i], s2[i]),
    decreases s1.len(),
{
    if s1.len() == 0 {
        if s2.len() > 0 {
            assert(folder_key_eq(s2[0], s2[0]));
            assert(has_key(s2, s2[0]));
            assert(has_key(s1, s2[0]));
            assert(false);
        }
    } else if s2.len() == 0 {
        assert(folder_key_eq(s1[0], s1[0]));
        assert(has_key(s1, s1[0]));
        assert(has_key(s2, s1[0]));
        assert(false);
    } else {
        assert(folder_key_eq(s1[0], s1[0]));
        assert(has_key(s1, s1[0]));
        assert(has_key(s2, s1[0]));
        let j = choose|j: int| 0 <= j < s2.len() && folder_key_eq(s2[j], s1[0]);
        assert(folder_key_eq(s2[0], s2[0]));
        assert(has_key(s2, s2[0]));
        assert(has_key(s1, s2[0]));
        let i = choose|i: int| 0 <= i < s1.len() && folder_key_eq(s1[i], s2[0]);
        if j > 0 && i > 0 {
            assert(folder_lt(s2[0], s2[j]));
            assert(folder_lt(s1[0], s1[i]));
            assert(folder_lt(s2[0], s1[0]));
            assert(folder_lt(s1[0], s2[0]));
            lemma_folder_lt_transitive(s1[0], s2[0], s1[0]);
            lemma_folder_lt_irreflexive(s1[0], s1[0]);
        }
        assert(folder_key_eq(s1[0], s2[0]));
        let t1 = s1.skip(1);
        let t2 = s2.skip(1);
        assert forall|g: AddonFolder| #[trigger] has_key(t1, g) <==> has_key(t2, g) by {
            lemma_tail_has_key(s1, s2, g);
            lemma_tail_has_key(s2, s1, g);
        }
        lemma_sorted_unique(t1, t2);
        assert forall|i2: int| 0 <= i2 < s1.len() implies folder_key_eq(s1[i2], s2[i2]) by {
            if i2 > 0 {
                assert(folder_key_eq(t1[i2 - 1], t2[i2 - 1]));
            }
        }
    }
}

/// Helper for `lemma_sorted_unique`: a key found past the head of one sorted
/// list is also found past the head of the other.
proof fn lemma_tail_has_key(s1: Seq<AddonFolder>, s2: Seq<AddonFolder>, g: AddonFolder)
    requires
        strictly_sorted(s1),
        strictly_sorted(s2),
        forall|h: AddonFolder| #[trigger] has_key(s1, h) <==> has_key(s2, h),
        s1.len() > 0,
        s2.len() > 0,
        folder_key_eq(s1[0], s2[0]),
    ensures
        has_key(s1.skip(1), g) ==> has_key(s2.skip(1), g),
{
    let t1 = s1.skip(1);
    let t2 = s2.skip(1);
    if has_key(t1, g) {
        let i = choose|i: int| 0 <= i < t1.len() && folder_key_eq(t1[i], g);
        assert(t1[i] == s1[i + 1]);
        assert(folder_key_eq(s1[i + 1], g));
        assert(has_key(s1, g));
        assert(has_key(s2, g));
        let j = choose|j: int| 0 <= j < s2.len() && folder_key_eq(s2[j], g);
        if j == 0 {
            // then g's key equals the shared head key, yet g also sits
            // strictly above the head of s1: contradiction with the order.
            assert(folder_lt(s1[0], s1[i + 1]));
            lemma_folder_lt_irreflexive(s1[0], s1[i + 1]);
        }
        assert(folder_key_eq(t2[j - 1], g));
    }
}

} // verus!
