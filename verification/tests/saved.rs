use addon_fs::{candidate_state_id, saved_variable_matches, AddonFolder};

fn folders(ids: &[&str]) -> Vec<AddonFolder> {
    ids.iter()
        .map(|id| AddonFolder {
            id: id.to_string(),
            path: format!("/install/{}", id),
        })
        .collect()
}

#[test]
fn reconciliation_deletes_exactly_the_recognized_suffixes() {
    // Seven known ids; plain state files on even positions, backups on odd
    // ones, and the last file carries an unrecognized suffix instead.
    let ids = [
        "AddonA", "AddonB", "AddonC", "AddonD", "AddonE", "AddonF", "AddonG",
    ];
    let known = folders(&ids);
    let mut names = Vec::new();
    for (idx, id) in ids.iter().enumerate() {
        let mut name = if idx % 2 == 0 {
            format!("{}.lua", id)
        } else {
            format!("{}.lua.bak", id)
        };
        if idx == ids.len() - 1 {
            name = format!("{}.nonlua", id);
        }
        names.push(name);
    }
    let mut deleted = 0;
    for name in &names {
        if saved_variable_matches("SavedVariables", name, &known) {
            deleted += 1;
        }
    }
    assert_eq!(deleted, 6);
    assert!(!saved_variable_matches(
        "SavedVariables",
        "AddonG.nonlua",
        &known
    ));
}

#[test]
fn bare_backup_suffix_is_not_removable() {
    let known = folders(&["AddonA"]);
    // `.lua.bak` strips down to the id, a bare `.bak` does not.
    assert!(saved_variable_matches(
        "SavedVariables",
        "AddonA.lua.bak",
        &known
    ));
    assert!(!saved_variable_matches(
        "SavedVariables",
        "AddonA.bak",
        &known
    ));
}

#[test]
fn only_saved_variables_directories_are_reconciled() {
    let known = folders(&["AddonA"]);
    assert!(saved_variable_matches("SavedVariables", "AddonA.lua", &known));
    assert!(!saved_variable_matches("Interface", "AddonA.lua", &known));
    assert!(!saved_variable_matches("savedvariables", "AddonA.lua", &known));
}

#[test]
fn candidate_identity_strips_one_suffix_pair() {
    assert_eq!(candidate_state_id("AddonA.lua"), "AddonA");
    assert_eq!(candidate_state_id("AddonA.lua.bak"), "AddonA");
    assert_eq!(candidate_state_id("AddonA.bak"), "AddonA.bak");
    assert_eq!(candidate_state_id("AddonA.lua.lua"), "AddonA.lua");
    assert_eq!(candidate_state_id("AddonA"), "AddonA");
    assert_eq!(candidate_state_id(""), "");
}

#[test]
fn unknown_identity_is_never_matched() {
    let known = folders(&["AddonA"]);
    assert!(!saved_variable_matches(
        "SavedVariables",
        "AddonZ.lua",
        &known
    ));
    assert!(!saved_variable_matches(
        "SavedVariables",
        "AddonA.lua2",
        &known
    ));
}
