use addon_fs::{entry_is_manifest, finalize_folders, top_level_segments, AddonFolder};

fn folder(id: &str, path: &str) -> AddonFolder {
    AddonFolder {
        id: id.to_string(),
        path: path.to_string(),
    }
}

fn keys(folders: &[AddonFolder]) -> Vec<(String, String)> {
    folders
        .iter()
        .map(|f| (f.id.clone(), f.path.clone()))
        .collect()
}

#[test]
fn multi_manifest_folder_collapses_to_one_record() {
    // AddonA/AddonA.toc and AddonA/AddonA-Lib.toc both resolve to AddonA.
    let parsed = vec![
        folder("AddonA", "/install/AddonA"),
        folder("AddonA", "/install/AddonA"),
    ];
    let result = finalize_folders(parsed);
    assert_eq!(result.len(), 1);
    assert_eq!(result[0].id, "AddonA");
    assert_eq!(result[0].path, "/install/AddonA");
}

#[test]
fn folder_list_is_sorted_and_deduplicated() {
    let parsed = vec![
        folder("Beta", "/r/Beta"),
        folder("Alpha", "/r/Alpha2"),
        folder("Alpha", "/r/Alpha1"),
        folder("Beta", "/r/Beta"),
    ];
    let result = finalize_folders(parsed);
    assert_eq!(
        keys(&result),
        vec![
            ("Alpha".to_string(), "/r/Alpha1".to_string()),
            ("Alpha".to_string(), "/r/Alpha2".to_string()),
            ("Beta".to_string(), "/r/Beta".to_string()),
        ]
    );
}

#[test]
fn repeated_install_yields_equal_folder_list() {
    // Two runs over the same manifest records end in the same list, and a
    // second pass over the result changes nothing.
    let parsed = vec![
        folder("AddonB", "/r/AddonB"),
        folder("AddonA", "/r/AddonA"),
        folder("AddonA", "/r/AddonA"),
    ];
    let first = finalize_folders(parsed.clone());
    let second = finalize_folders(parsed);
    assert_eq!(keys(&first), keys(&second));
    let again = finalize_folders(first.clone());
    assert_eq!(keys(&first), keys(&again));
}

#[test]
fn manifest_sits_exactly_one_level_below_root() {
    let yes = vec!["AddonA".to_string(), "AddonA.toc".to_string()];
    assert!(entry_is_manifest(&yes));
    let top_level = vec!["AddonA.toc".to_string()];
    assert!(!entry_is_manifest(&top_level));
    let nested = vec![
        "AddonA".to_string(),
        "sub".to_string(),
        "AddonA.toc".to_string(),
    ];
    assert!(!entry_is_manifest(&nested));
}

#[test]
fn manifest_extension_must_follow_a_stem() {
    let wrong_ext = vec!["AddonA".to_string(), "readme.txt".to_string()];
    assert!(!entry_is_manifest(&wrong_ext));
    let bare_ext = vec!["AddonA".to_string(), ".toc".to_string()];
    assert!(!entry_is_manifest(&bare_ext));
    let multi_dot = vec!["AddonA".to_string(), "AddonA-Lib.v2.toc".to_string()];
    assert!(entry_is_manifest(&multi_dot));
}

#[test]
fn top_level_segments_are_distinct_and_sanitized() {
    let names = vec![
        "AddonA/AddonA.toc".to_string(),
        "AddonA/sub/data.lua".to_string(),
        "AddonB/AddonB.toc".to_string(),
        "../AddonC/x".to_string(),
        "..".to_string(),
    ];
    let tops = top_level_segments(&names);
    assert_eq!(
        tops,
        vec!["AddonA".to_string(), "AddonB".to_string(), "AddonC".to_string()]
    );
}
