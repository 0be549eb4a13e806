//! The saved-state reconciler's decision: which files under a
//! `SavedVariables` directory belong to a known addon identity. The walking
//! and deleting are the application's; the naming convention is decided here.
use vstd::prelude::*;

use crate::folder::AddonFolder;

verus! {

/// The name ends in the state-file extension `.lua`.
pub open spec fn ends_lua(n: Seq<char>) -> bool {
    &&& n.len() >= 4
    &&& n[n.len() - 4] == '.'
    &&& n[n.len() - 3] == 'l'
    &&& n[n.len() - 2] == 'u'
    &&& n[n.len() - 1] == 'a'
}

/// The name ends in the extension and the backup marker, `.lua.bak`.
pub open spec fn ends_lua_bak(n: Seq<char>) -> bool {
    &&& n.len() >= 8
    &&& n[n.len() - 8] == '.'
    &&& n[n.len() - 7] == 'l'
    &&& n[n.len() - 6] == 'u'
    &&& n[n.len() - 5] == 'a'
    &&& n[n.len() - 4] == '.'
    &&& n[n.len() - 3] == 'b'
    &&& n[n.len() - 2] == 'a'
    &&& n[n.len() - 1] == 'k'
}

/// The identity a state-file name stands for. One backup marker is removed
/// only together with the extension before it: `.lua.bak` and `.lua` strip,
/// while a bare `.bak` is not a removable backup and the name stands as it
/// is. That asymmetry is deliberate and load-bearing.
pub open spec fn candidate_id(name: Seq<char>) -> Seq<char> {
    if ends_lua_bak(name) {
        name.subrange(0, name.len() - 8)
    } else if ends_lua(name) {
        name.subrange(0, name.len() - 4)
    } else {
        name
    }
}

/// Strips the state-file suffixes from a file name, yielding the identity
/// the file stands for.
pub fn candidate_state_id(file_name: &str) -> (r: String)
    ensures
        r@ == candidate_id(file_name@),
{
    let n = file_name.unicode_len();
    if n >= 8 && file_name.get_char(n - 8) == '.' && file_name.get_char(n - 7) == 'l'
        && file_name.get_char(n - 6) == 'u' && file_name.get_char(n - 5) == 'a'
        && file_name.get_char(n - 4) == '.' && file_name.get_char(n - 3) == 'b'
        && file_name.get_char(n - 2) == 'a' && file_name.get_char(n - 1) == 'k' {
        String::from_str(file_name.substring_char(0, n - 8))
    } else if n >= 4 && file_name.get_char(n - 4) == '.' && file_name.get_char(n - 3) == 'l'
        && file_name.get_char(n - 2) == 'u' && file_name.get_char(n - 1) == 'a' {
        String::from_str(file_name.substring_char(0, n - 4))
    } else {
        String::from_str(file_name)
    }
}

/// Files are reconciled only when they sit directly inside a directory of
/// this name.
pub open spec fn is_saved_variables_dir(p: Seq<char>) -> bool {
    p == "SavedVariables"@
}

/// Some folder record carries exactly this identity.
pub open spec fn id_matches(folders: Seq<AddonFolder>, cand: Seq<char>) -> bool {
    exists|i: int| 0 <= i < folders.len() && folders[i].id@ == cand
}

/// Decides whether the reconciler deletes a file: its parent directory must
/// be named `SavedVariables`, and the identity its name stands for must be
/// the identity of one of the known folders.
pub fn saved_variable_matches(parent_name: &str, file_name: &str, folders: &Vec<AddonFolder>) -> (r:
    bool)
    ensures
        r == (is_saved_variables_dir(parent_name@) && id_matches(
            folders@,
            candidate_id(file_name@),
        )),
{
    let p = String::from_str(parent_name);
    let sv = String::from_str("SavedVariables");
    if !(p == sv) {
        return false;
    }
    let cand = candidate_state_id(file_name);
    let n = folders.len();
    let mut i: usize = 0;
    while i < n
        invariant
            n == folders@.len(),
            i <= n,
            is_saved_variables_dir(parent_name@),
            cand@ == candidate_id(file_name@),
            forall|t: int| 0 <= t < i ==> folders@[t].id@ != cand@,
        decreases n - i,
    {
        if folders[i].id == cand {
            proof {
                assert(folders@[i as int].id@ == candidate_id(file_name@));
            }
            return true;
        }
        i += 1;
    }
    false
}

} // verus!
