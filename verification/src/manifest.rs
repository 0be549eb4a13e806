//! The manifest locator: recognizes the extracted entries that are addon
//! manifests (a `.toc` file exactly one level below the target root), and the
//! distinct top-level folders an archive will lay down, which the installer
//! clears before extraction.
use vstd::prelude::*;

use crate::sanitize::{sanitize_entry_name, spec_sanitize};

verus! {

/// The final path segment carries the manifest extension: its last four
/// characters are `.toc` and at least one character precedes them.
pub open spec fn has_manifest_ext(f: Seq<char>) -> bool {
    &&& f.len() >= 5
    &&& f[f.len() - 4] == '.'
    &&& f[f.len() - 3] == 't'
    &&& f[f.len() - 2] == 'o'
    &&& f[f.len() - 1] == 'c'
}

/// A destination is a manifest candidate exactly when it sits one folder
/// below the root and its file name carries the manifest extension.
pub open spec fn spec_is_manifest(comps: Seq<Seq<char>>) -> bool {
    comps.len() == 2 && has_manifest_ext(comps[1])
}

/// Classifies one sanitized destination, given as its path components below
/// the target root: manifests of deeper-nested or top-level files are not
/// candidates.
pub fn entry_is_manifest(components: &Vec<String>) -> (r: bool)
    ensures
        r == spec_is_manifest(components.deep_view()),
{
    proof {
        assert(components.deep_view().len() == components@.len());
    }
    if components.len() != 2 {
        return false;
    }
    let f: &String = &components[1];
    proof {
        assert(components.deep_view()[1] == f@);
    }
    let n = f.as_str().unicode_len();
    if n < 5 {
        return false;
    }
    let s = f.as_str();
    s.get_char(n - 4) == '.' && s.get_char(n - 3) == 't' && s.get_char(n - 2) == 'o' && s.get_char(
        n - 1,
    ) == 'c'
}

/// Some string in `v` reads `s`.
pub open spec fn contains_str(v: Seq<String>, s: Seq<char>) -> bool {
    exists|k: int| 0 <= k < v.len() && v[k]@ == s
}

/// `seg` is the first sanitized component of one of the entry names.
pub open spec fn is_top_segment(names: Seq<String>, seg: Seq<char>) -> bool {
    exists|i: int|
        0 <= i < names.len() && spec_sanitize(#[trigger] names[i]@).len() > 0 && seg
            == spec_sanitize(names[i]@)[0]
}

fn contains_string(v: &Vec<String>, s: &String) -> (r: bool)
    ensures
        r == contains_str(v@, s@),
{
    let n = v.len();
    let mut k: usize = 0;
    while k < n
        invariant
            n == v@.len(),
            k <= n,
            forall|t: int| 0 <= t < k ==> v@[t]@ != s@,
        decreases n - k,
    {
        if v[k] == *s {
            return true;
        }
        k += 1;
    }
    false
}

/// The distinct top-level folder names that extracting the archive would
/// create: the first sanitized component of each entry name, each exactly
/// once, in order of first appearance. The installer clears these folders
/// under the target root before it extracts.
pub fn top_level_segments(names: &Vec<String>) -> (r: Vec<String>)
    ensures
        forall|k1: int, k2: int| 0 <= k1 < k2 < r@.len() ==> r@[k1]@ != r@[k2]@,
        forall|k: int| 0 <= k < r@.len() ==> is_top_segment(names@, #[trigger] r@[k]@),
        forall|i: int|
            0 <= i < names@.len() && spec_sanitize(#[trigger] names@[i]@).len() > 0 ==> contains_str(
                r@,
                spec_sanitize(names@[i]@)[0],
            ),
{
    let mut r: Vec<String> = Vec::new();
    let n = names.len();
    let mut i: usize = 0;
    while i < n
        invariant
            n == names@.len(),
            i <= n,
            forall|k1: int, k2: int| 0 <= k1 < k2 < r@.len() ==> r@[k1]@ != r@[k2]@,
            forall|k: int| 0 <= k < r@.len() ==> is_top_segment(names@, #[trigger] r@[k]@),
            forall|t: int|
                0 <= t < i && spec_sanitize(#[trigger] names@[t]@).len() > 0 ==> contains_str(
                    r@,
                    spec_sanitize(names@[t]@)[0],
                ),
        decreases n - i,
    {
        let comps = sanitize_entry_name(names[i].as_str());
        proof {
            assert(comps.deep_view().len() == comps@.len());
        }
        if comps.len() > 0 {
            let first: &String = &comps[0];
            proof {
                assert(comps.deep_view()[0] == first@);
                assert(first@ == spec_sanitize(names@[i as int]@)[0]);
            }
            if !contains_string(&r, first) {
                let ghost pre = r@;
                r.push(first.clone());
                proof {
                    assert(r@[pre.len() as int]@ == first@);
                    assert forall|k: int| 0 <= k < r@.len() implies is_top_segment(
                        names@,
                        #[trigger] r@[k]@,
                    ) by {
                        if k < pre.len() {
                            assert(r@[k] == pre[k]);
                        } else {
                            assert(is_top_segment(names@, first@));
                        }
                    }
                    assert forall|t: int|
                        0 <= t < i + 1 && spec_sanitize(
                            #[trigger] names@[t]@,
                        ).len() > 0 implies contains_str(r@, spec_sanitize(names@[t]@)[0]) by {
                        if t < i {
                            let w = choose|w: int|
                                0 <= w < pre.len() && pre[w]@ == spec_sanitize(names@[t]@)[0];
                            assert(r@[w]@ == spec_sanitize(names@[t]@)[0]);
                        } else {
                            assert(r@[pre.len() as int]@ == spec_sanitize(names@[t]@)[0]);
                        }
                    }
                }
            } else {
                proof {
                    assert forall|t: int|
                        0 <= t < i + 1 && spec_sanitize(
                            #[trigger] names@[t]@,
                        ).len() > 0 implies contains_str(r@, spec_sanitize(names@[t]@)[0]) by {
                        if t == i {
                            assert(contains_str(r@, first@));
                        }
                    }
                }
            }
        }
        i += 1;
    }
    r
}

} // verus!
