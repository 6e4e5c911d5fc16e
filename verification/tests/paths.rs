use t_rs::paths::in_tempdir;
use t_rs::paths::segs_eq;
use t_rs::paths::segs_starts_with;
use t_rs::paths::ShellCwd;

fn segs(parts: &[&str]) -> Vec<String> {
    parts.iter().map(|s| s.to_string()).collect()
}

#[test]
fn classifier_finds_entry_through_resolved_link() {
    let registry = segs(&["home", "u", "tempdirs"]);
    let tmp = segs(&["tmp"]);
    let cwd = segs(&["somewhere", "else"]);
    let pwd = ShellCwd {
        reported: segs(&["home", "u", "tempdirs", "proj"]),
        resolved: segs(&["tmp", "T-RS-TEMPDIR.abc123"]),
    };
    let r = in_tempdir(&registry, &tmp, &cwd, Some(&pwd));
    assert_eq!(r, Some(segs(&["home", "u", "tempdirs", "proj"])));
}

#[test]
fn classifier_walks_up_from_subdirectory() {
    let registry = segs(&["home", "u", "tempdirs"]);
    let tmp = segs(&["tmp"]);
    let cwd = segs(&["somewhere"]);
    let pwd = ShellCwd {
        reported: segs(&["home", "u", "tempdirs", "proj", "sub"]),
        resolved: segs(&["tmp", "T-RS-TEMPDIR.abc123", "sub"]),
    };
    let r = in_tempdir(&registry, &tmp, &cwd, Some(&pwd));
    assert_eq!(r, Some(segs(&["home", "u", "tempdirs", "proj"])));
}

#[test]
fn classifier_finds_persistent_entry_under_registry() {
    let registry = segs(&["home", "u", "tempdirs"]);
    let tmp = segs(&["tmp"]);
    let cwd = segs(&["somewhere"]);
    let pwd = ShellCwd {
        reported: segs(&["home", "u", "tempdirs", "keep", "deep"]),
        resolved: segs(&["home", "u", "tempdirs", "keep", "deep"]),
    };
    let r = in_tempdir(&registry, &tmp, &cwd, Some(&pwd));
    assert_eq!(r, Some(segs(&["home", "u", "tempdirs", "keep"])));
}

#[test]
fn classifier_registry_root_itself_is_no_entry() {
    let registry = segs(&["home", "u", "tempdirs"]);
    let tmp = segs(&["tmp"]);
    let cwd = segs(&["somewhere"]);
    let pwd = ShellCwd {
        reported: segs(&["home", "u", "tempdirs"]),
        resolved: segs(&["home", "u", "tempdirs"]),
    };
    assert_eq!(in_tempdir(&registry, &tmp, &cwd, Some(&pwd)), None);
}

#[test]
fn classifier_falls_back_to_process_cwd() {
    let registry = segs(&["home", "u", "tempdirs"]);
    let tmp = segs(&["tmp"]);
    let cwd = segs(&["tmp", "T-RS-TEMPDIR.xyz"]);
    assert_eq!(
        in_tempdir(&registry, &tmp, &cwd, None),
        Some(segs(&["tmp", "T-RS-TEMPDIR.xyz"]))
    );
}

#[test]
fn classifier_prefix_must_lead_the_segment() {
    let registry = segs(&["home", "u", "tempdirs"]);
    let tmp = segs(&["tmp"]);
    let cwd = segs(&["tmp", "abcT-RS-TEMPDIR"]);
    assert_eq!(in_tempdir(&registry, &tmp, &cwd, None), None);
}

#[test]
fn classifier_outside_everything() {
    let registry = segs(&["home", "u", "tempdirs"]);
    let tmp = segs(&["tmp"]);
    let cwd = segs(&["home", "u", "code"]);
    let pwd = ShellCwd {
        reported: segs(&["home", "u", "code"]),
        resolved: segs(&["home", "u", "code"]),
    };
    assert_eq!(in_tempdir(&registry, &tmp, &cwd, Some(&pwd)), None);
}

#[test]
fn segment_path_equality() {
    assert!(segs_eq(&segs(&["a", "b"]), &segs(&["a", "b"])));
    assert!(!segs_eq(&segs(&["a", "b"]), &segs(&["a", "c"])));
    assert!(!segs_eq(&segs(&["a"]), &segs(&["a", "b"])));
}

#[test]
fn segment_path_prefix() {
    assert!(segs_starts_with(&segs(&["a", "b", "c"]), &segs(&["a", "b"])));
    assert!(segs_starts_with(&segs(&["a", "b"]), &segs(&["a", "b"])));
    assert!(!segs_starts_with(&segs(&["a", "b"]), &segs(&["b"])));
}
