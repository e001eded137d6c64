use dialf::paths::{clean, name_of, parent, resolve_under, split_path};

#[test]
fn resolve_paths_relative_under_base_absolute_unchanged() {
    let base = Some("/etc/dialf");
    // Relative -> joined under the base (config/job dir).
    assert_eq!(resolve_under(base, "jobs/x.yaml"), "/etc/dialf/jobs/x.yaml");
    // A leading `./` is normalized away, not concatenated (no interior `/./`).
    assert_eq!(resolve_under(base, "./jobs/x.yaml"), "/etc/dialf/jobs/x.yaml");
    // Absolute -> used as-is.
    assert_eq!(resolve_under(base, "/var/rec"), "/var/rec");
    // Empty base / no base -> unchanged (can't anchor).
    assert_eq!(resolve_under(Some(""), "rel"), "rel");
    assert_eq!(resolve_under(None, "rel"), "rel");
    // Autoanswer job paths resolve in the same way.
    assert_eq!(resolve_under(base, "jobs/x.yaml"), "/etc/dialf/jobs/x.yaml");
    assert_eq!(resolve_under(base, "/abs/x.yaml"), "/abs/x.yaml");
}

#[test]
fn resolve_under_joins_relative_keeps_absolute() {
    let base = Some("/etc/dialf");
    // Relative paths resolve under the base (the config dir).
    assert_eq!(resolve_under(base, "jobs/x.yaml"), "/etc/dialf/jobs/x.yaml");
    // Absolute paths pass through unchanged.
    assert_eq!(resolve_under(base, "/abs/x.yaml"), "/abs/x.yaml");
    // No base → unchanged.
    assert_eq!(resolve_under(None, "jobs/x.yaml"), "jobs/x.yaml");
}

#[test]
fn paths_are_cleaned_lexically() {
    assert_eq!(clean("/a//b/./c/"), "/a/b/c");
    assert_eq!(clean("./a/.."), "./a/..");
    assert_eq!(parent("/a/b"), Some("/a".to_string()));
    assert_eq!(parent("b"), Some(String::new()));
    assert_eq!(parent("/"), None);
    assert_eq!(name_of("/a/b.yaml"), Some("b.yaml".to_string()));
    assert_eq!(name_of("/a/.."), None);
}

#[test]
fn a_clean_path_stays_and_a_relative_one_leads_below_its_base() {
    for p in ["", "/", ".", "./a", "a//b/", "/a/./b", "../x", "/./", "a/.", ".//."] {
        let once = clean(p);
        assert_eq!(clean(&once), once, "{p}");
        assert_eq!(split_path(&once), split_path(p), "{p}");
        assert_eq!(once.starts_with('/'), p.starts_with('/'), "{p}");
    }
    assert_eq!(split_path(&resolve_under(Some("/etc//dialf/"), "./jobs/../a.yaml")), [
        "etc", "dialf", "jobs", "..", "a.yaml",
    ]);
}
