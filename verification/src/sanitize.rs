//! The path sanitizer: turns an attacker-controlled archive entry name into
//! the components of a destination path that cannot leave the target root.
//! Unsafe parts of a name are stripped rather than reported: the result is
//! always a (possibly empty) list of benign child names.
use vstd::prelude::*;

verus! {

/// Archive entry names may separate components with either slash.
pub open spec fn is_separator(c: char) -> bool {
    c == '/' || c == '\\'
}

/// A component survives sanitization only when it names a plain child
/// directory or file: nonempty, not the current or parent directory, and
/// free of drive or volume markers.
pub open spec fn spec_keep(c: Seq<char>) -> bool {
    &&& c.len() > 0
    &&& !(c.len() == 1 && c[0] == '.')
    &&& !(c.len() == 2 && c[0] == '.' && c[1] == '.')
    &&& forall|j: int| 0 <= j < c.len() ==> c[j] != ':'
}

/// Splits what remains of an entry name at separators, keeps the benign
/// components, and stops at an embedded NUL; `cur` is the component begun so
/// far.
pub open spec fn components_from(s: Seq<char>, cur: Seq<char>) -> Seq<Seq<char>>
    decreases s.len(),
{
    if s.len() == 0 || s[0] == '\0' {
        if spec_keep(cur) {
            seq![cur]
        } else {
            Seq::empty()
        }
    } else if is_separator(s[0]) {
        (if spec_keep(cur) {
            seq![cur]
        } else {
            Seq::empty()
        }) + components_from(s.drop_first(), Seq::empty())
    } else {
        components_from(s.drop_first(), cur.push(s[0]))
    }
}

/// The destination of an archive entry, as path components under the target
/// root.
pub open spec fn spec_sanitize(name: Seq<char>) -> Seq<Seq<char>> {
    components_from(name, Seq::empty())
}

/// A component that can be joined below a root without escaping it: it is a
/// plain name, not `.` or `..`, and holds no separator, drive marker or NUL.
pub open spec fn safe_component(c: Seq<char>) -> bool {
    &&& c.len() > 0
    &&& !(c.len() == 1 && c[0] == '.')
    &&& !(c.len() == 2 && c[0] == '.' && c[1] == '.')
    &&& forall|j: int| 0 <= j < c.len() ==> c[j] != ':' && !is_separator(c[j]) && c[j] != '\0'
}

proof fn lemma_components_from_safe(s: Seq<char>, cur: Seq<char>)
    requires
        forall|j: int| 0 <= j < cur.len() ==> !is_separator(cur[j]) && cur[j] != '\0',
    ensures
        forall|k: int|
            0 <= k < components_from(s, cur).len() ==> safe_component(
                #[trigger] components_from(s, cur)[k],
            ),
    decreases s.len(),
{
    let out = components_from(s, cur);
    if s.len() == 0 || s[0] == '\0' {
        if spec_keep(cur) {
            assert(out[0] == cur);
            assert(safe_component(cur));
        }
    } else if is_separator(s[0]) {
        lemma_components_from_safe(s.drop_first(), Seq::empty());
        let rest = components_from(s.drop_first(), Seq::empty());
        assert forall|k: int| 0 <= k < out.len() implies safe_component(out[k]) by {
            if spec_keep(cur) {
                if k == 0 {
                    assert(out[0] == cur);
                } else {
                    assert(out[k] == rest[k - 1]);
                }
            } else {
                assert(out[k] == rest[k]);
            }
        }
    } else {
        lemma_components_from_safe(s.drop_first(), cur.push(s[0]));
        let rest = components_from(s.drop_first(), cur.push(s[0]));
        assert forall|k: int| 0 <= k < out.len() implies safe_component(out[k]) by {
            assert(out[k] == rest[k]);
        }
    }
}

/// Law: no sanitized entry path escapes the target root. Every component
/// that sanitization lets through is a plain child name — nonempty, neither
/// `.` nor `..`, and free of separators, drive markers and NULs — so the
/// destination path built by pushing them onto the root always stays inside
/// it, whatever the archive supplied.
pub proof fn lemma_sanitize_contained(name: Seq<char>)
    ensures
        forall|k: int|
            0 <= k < spec_sanitize(name).len() ==> safe_component(
                #[trigger] spec_sanitize(name)[k],
            ),
{
    lemma_components_from_safe(name, Seq::empty());
}

/// Decides `spec_keep` for one extracted component.
fn keep_component(c: &str) -> (r: bool)
    ensures
        r == spec_keep(c@),
{
    let n = c.unicode_len();
    if n == 0 {
        return false;
    }
    if n == 1 && c.get_char(0) == '.' {
        return false;
    }
    if n == 2 && c.get_char(0) == '.' && c.get_char(1) == '.' {
        return false;
    }
    let mut j: usize = 0;
    while j < n
        invariant
            n == c@.len(),
            j <= n,
            c@.len() > 0,
            !(c@.len() == 1 && c@[0] == '.'),
            !(c@.len() == 2 && c@[0] == '.' && c@[1] == '.'),
            forall|t: int| 0 <= t < j ==> c@[t] != ':',
        decreases n - j,
    {
        if c.get_char(j) == ':' {
            return false;
        }
        j += 1;
    }
    true
}

/// Sanitizes one archive entry name into the components of its destination
/// path below the target root. Empty, `.`, `..` and drive-marked components
/// are dropped, both slashes separate, and an embedded NUL ends the name.
pub fn sanitize_entry_name(name: &str) -> (r: Vec<String>)
    ensures
        r.deep_view() == spec_sanitize(name@),
{
    let len = name.unicode_len();
    let mut out: Vec<String> = Vec::new();
    let mut start: usize = 0;
    let mut i: usize = 0;
    proof {
        assert(name@.skip(0) =~= name@);
        assert(name@.subrange(0, 0) =~= Seq::<char>::empty());
        assert(out.deep_view() =~= Seq::<Seq<char>>::empty());
    }
    while i < len
        invariant
            len == name@.len(),
            start <= i <= len,
            out.deep_view() + components_from(
                name@.skip(i as int),
                name@.subrange(start as int, i as int),
            ) == spec_sanitize(name@),
        decreases len - i,
    {
        let ghost cur = name@.subrange(start as int, i as int);
        let ghost tail = name@.skip(i as int);
        proof {
            assert(tail.len() == len - i);
            assert(tail[0] == name@[i as int]);
        }
        let c = name.get_char(i);
        if c == '\0' {
            let comp = name.substring_char(start, i);
            let ghost pre = out.deep_view();
            if keep_component(comp) {
                out.push(String::from_str(comp));
                proof {
                    assert(out.deep_view() =~= pre.push(cur));
                    assert(components_from(tail, cur) =~= seq![cur]);
                    assert(pre.push(cur) =~= pre + seq![cur]);
                }
            } else {
                proof {
                    assert(components_from(tail, cur) =~= Seq::<Seq<char>>::empty());
                    assert(pre + Seq::<Seq<char>>::empty() =~= pre);
                }
            }
            return out;
        } else if c == '/' || c == '\\' {
            let ghost rest = components_from(name@.skip(i as int + 1), Seq::<char>::empty());
            proof {
                assert(tail.drop_first() =~= name@.skip(i as int + 1));
                assert(components_from(tail, cur) == (if spec_keep(cur) {
                    seq![cur]
                } else {
                    Seq::<Seq<char>>::empty()
                }) + rest);
            }
            let comp = name.substring_char(start, i);
            let ghost pre = out.deep_view();
            if keep_component(comp) {
                out.push(String::from_str(comp));
                proof {
                    assert(out.deep_view() =~= pre.push(cur));
                    assert(pre.push(cur) + rest =~= pre + (seq![cur] + rest));
                }
            } else {
                proof {
                    assert(pre + (Seq::<Seq<char>>::empty() + rest) =~= pre + rest);
                }
            }
            start = i + 1;
            proof {
                assert(name@.subrange(start as int, start as int) =~= Seq::<char>::empty());
            }
        } else {
            proof {
                assert(name@.subrange(start as int, i as int + 1) =~= cur.push(name@[i as int]));
                assert(tail.drop_first() =~= name@.skip(i as int + 1));
            }
        }
        i += 1;
    }
    let ghost cur = name@.subrange(start as int, len as int);
    proof {
        assert(name@.skip(len as int) =~= Seq::<char>::empty());
    }
    let comp = name.substring_char(start, len);
    let ghost pre = out.deep_view();
    if keep_component(comp) {
        out.push(String::from_str(comp));
        proof {
            assert(out.deep_view() =~= pre.push(cur));
            assert(components_from(Seq::<char>::empty(), cur) =~= seq![cur]);
            assert(pre.push(cur) =~= pre + seq![cur]);
        }
    } else {
        proof {
            assert(components_from(Seq::<char>::empty(), cur) =~= Seq::<Seq<char>>::empty());
            assert(pre + Seq::<Seq<char>>::empty() =~= pre);
        }
    }
    out
}

} // verus!
