use addon_fs::sanitize_entry_name;

#[test]
fn traversal_segments_are_stripped() {
    let comps = sanitize_entry_name("../../etc/passwd");
    assert_eq!(comps, vec!["etc".to_string(), "passwd".to_string()]);
}

#[test]
fn absolute_path_is_contained() {
    let comps = sanitize_entry_name("/abs/evil.bin");
    assert_eq!(comps, vec!["abs".to_string(), "evil.bin".to_string()]);
}

#[test]
fn drive_prefix_is_dropped() {
    let comps = sanitize_entry_name("C:\\windows\\system.dll");
    assert_eq!(comps, vec!["windows".to_string(), "system.dll".to_string()]);
}

#[test]
fn nul_truncates_the_name() {
    let comps = sanitize_entry_name("AddonA/file\u{0}../../evil");
    assert_eq!(comps, vec!["AddonA".to_string(), "file".to_string()]);
}

#[test]
fn dot_and_empty_segments_are_dropped() {
    let comps = sanitize_entry_name("a//./b/..");
    assert_eq!(comps, vec!["a".to_string(), "b".to_string()]);
}

#[test]
fn plain_entry_is_unchanged() {
    let comps = sanitize_entry_name("AddonA/AddonA.toc");
    assert_eq!(comps, vec!["AddonA".to_string(), "AddonA.toc".to_string()]);
}

#[test]
fn fully_unsafe_name_degrades_to_nothing() {
    assert!(sanitize_entry_name("..").is_empty());
    assert!(sanitize_entry_name("/").is_empty());
    assert!(sanitize_entry_name("").is_empty());
    assert!(sanitize_entry_name("C:").is_empty());
}

#[test]
fn mixed_separators_split() {
    let comps = sanitize_entry_name("AddonA\\sub/file.txt");
    assert_eq!(
        comps,
        vec!["AddonA".to_string(), "sub".to_string(), "file.txt".to_string()]
    );
}
