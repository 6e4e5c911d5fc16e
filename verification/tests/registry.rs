use t_rs::registry::CreateOutcome;
use t_rs::registry::DeleteOutcome;
use t_rs::registry::Entry;
use t_rs::registry::EntryKind;
use t_rs::registry::PersistOutcome;
use t_rs::registry::Registry;
use t_rs::registry::Resolution;
use t_rs::registry::resolve_target;

fn segs(parts: &[&str]) -> Vec<String> {
    parts.iter().map(|s| s.to_string()).collect()
}

fn ephemeral(name: &str, target: &[&str], target_exists: bool) -> Entry {
    Entry {
        name: name.to_string(),
        kind: EntryKind::Ephemeral { target: segs(target), target_exists },
    }
}

fn persistent(name: &str) -> Entry {
    Entry { name: name.to_string(), kind: EntryKind::Persistent }
}

fn names_of(reg: &Registry) -> Vec<String> {
    reg.entries.iter().map(|e| e.name.clone()).collect()
}

#[test]
fn create_then_status_shows_ephemeral() {
    let mut reg = Registry { entries: Vec::new() };
    let registry_path = segs(&["home", "u", "tempdirs"]);
    let orig = segs(&["home", "u"]);
    let target = segs(&["tmp", "T-RS-TEMPDIR.fresh"]);
    let (outcome, go_to) =
        reg.create_tempdir(&registry_path, &"proj".to_string(), &orig, &target, true);
    assert!(matches!(outcome, CreateOutcome::Linked));
    assert_eq!(go_to, segs(&["home", "u", "tempdirs", "proj"]));
    let listing = reg.active_tempdirs();
    assert_eq!(listing.len(), 1);
    assert_eq!(listing[0].0, "proj");
    assert!(!listing[0].1);
}

#[test]
fn create_conflict_is_a_soft_no_op() {
    let mut reg = Registry { entries: vec![ephemeral("proj", &["tmp", "T-RS-TEMPDIR.old"], true)] };
    let registry_path = segs(&["home", "u", "tempdirs"]);
    let orig = segs(&["home", "u", "code"]);
    let target = segs(&["tmp", "T-RS-TEMPDIR.new"]);
    let (outcome, go_to) =
        reg.create_tempdir(&registry_path, &"proj".to_string(), &orig, &target, true);
    assert!(matches!(outcome, CreateOutcome::Conflict));
    assert_eq!(go_to, orig);
    assert_eq!(reg.entries.len(), 1);
    match &reg.entries[0].kind {
        EntryKind::Ephemeral { target, .. } => {
            assert_eq!(*target, segs(&["tmp", "T-RS-TEMPDIR.old"]))
        }
        EntryKind::Persistent => panic!("entry must stay ephemeral"),
    }
}

#[test]
fn create_hidden_registers_nothing() {
    let mut reg = Registry { entries: Vec::new() };
    let registry_path = segs(&["home", "u", "tempdirs"]);
    let orig = segs(&["home", "u"]);
    let target = segs(&["tmp", "T-RS-TEMPDIR.hid"]);
    let (outcome, go_to) =
        reg.create_tempdir(&registry_path, &"secret".to_string(), &orig, &target, false);
    assert!(matches!(outcome, CreateOutcome::Hidden));
    assert_eq!(go_to, target);
    assert!(reg.entries.is_empty());
}

#[test]
fn persist_flips_an_ephemeral_entry() {
    let mut reg = Registry { entries: vec![ephemeral("proj", &["tmp", "T-RS-TEMPDIR.d"], true)] };
    match reg.persist(&"proj".to_string()) {
        PersistOutcome::Persisted { target } => {
            assert_eq!(target, segs(&["tmp", "T-RS-TEMPDIR.d"]))
        }
        _ => panic!("expected the entry to be persisted"),
    }
    assert_eq!(reg.entries.len(), 1);
    assert_eq!(reg.entries[0].name, "proj");
    assert!(matches!(reg.entries[0].kind, EntryKind::Persistent));
}

#[test]
fn persist_on_persistent_entry_changes_nothing() {
    let mut reg = Registry { entries: vec![persistent("keep")] };
    assert!(matches!(
        reg.persist(&"keep".to_string()),
        PersistOutcome::AlreadyPersistent
    ));
    assert_eq!(reg.entries.len(), 1);
    assert!(matches!(reg.entries[0].kind, EntryKind::Persistent));
}

#[test]
fn persist_missing_name() {
    let mut reg = Registry { entries: Vec::new() };
    assert!(matches!(
        reg.persist(&"ghost".to_string()),
        PersistOutcome::NotFound
    ));
    assert!(reg.entries.is_empty());
}

#[test]
fn rename_moves_the_name_and_keeps_the_backing() {
    let mut reg = Registry { entries: vec![ephemeral("old", &["tmp", "T-RS-TEMPDIR.k"], true)] };
    assert!(reg.rename(&"old".to_string(), &"new".to_string()));
    assert_eq!(reg.entries.len(), 1);
    assert_eq!(reg.entries[0].name, "new");
    match &reg.entries[0].kind {
        EntryKind::Ephemeral { target, .. } => assert_eq!(*target, segs(&["tmp", "T-RS-TEMPDIR.k"])),
        EntryKind::Persistent => panic!("kind must be preserved"),
    }
}

#[test]
fn rename_never_overwrites() {
    let mut reg = Registry {
        entries: vec![
            ephemeral("old", &["tmp", "T-RS-TEMPDIR.k"], true),
            persistent("new"),
        ],
    };
    assert!(!reg.rename(&"old".to_string(), &"new".to_string()));
    assert_eq!(names_of(&reg), vec!["old".to_string(), "new".to_string()]);
}

#[test]
fn delete_ephemeral_returns_the_backing_path() {
    let mut reg = Registry { entries: vec![ephemeral("proj", &["tmp", "T-RS-TEMPDIR.z"], true)] };
    match reg.delete(&"proj".to_string()) {
        DeleteOutcome::RemovedLink { target } => {
            assert_eq!(target, segs(&["tmp", "T-RS-TEMPDIR.z"]))
        }
        _ => panic!("expected the symlink removal outcome"),
    }
    assert!(reg.entries.is_empty());
}

#[test]
fn delete_persistent_removes_the_directory() {
    let mut reg = Registry { entries: vec![persistent("keep")] };
    assert!(matches!(
        reg.delete(&"keep".to_string()),
        DeleteOutcome::RemovedDir
    ));
    assert!(reg.entries.is_empty());
}

#[test]
fn delete_missing_name() {
    let mut reg = Registry { entries: vec![persistent("keep")] };
    assert!(matches!(
        reg.delete(&"ghost".to_string()),
        DeleteOutcome::NotFound
    ));
    assert_eq!(reg.entries.len(), 1);
}

#[test]
fn delete_all_spares_persistent_entries() {
    let mut reg = Registry {
        entries: vec![
            ephemeral("a", &["tmp", "T-RS-TEMPDIR.a"], true),
            persistent("b"),
        ],
    };
    let removed = reg.delete_all();
    assert_eq!(removed, vec!["a".to_string()]);
    assert_eq!(names_of(&reg), vec!["b".to_string()]);
    assert!(matches!(reg.entries[0].kind, EntryKind::Persistent));
}

#[test]
fn cleanup_reaps_only_stale_links() {
    let mut reg = Registry {
        entries: vec![
            ephemeral("gone", &["tmp", "T-RS-TEMPDIR.gone"], false),
            ephemeral("live", &["tmp", "T-RS-TEMPDIR.live"], true),
            persistent("keep"),
        ],
    };
    let removed = reg.cleanup();
    assert_eq!(removed, vec!["gone".to_string()]);
    assert_eq!(names_of(&reg), vec!["live".to_string(), "keep".to_string()]);
}

#[test]
fn session_end_cleans_an_unpersisted_entry() {
    let mut reg = Registry { entries: vec![ephemeral("s", &["tmp", "T-RS-TEMPDIR.s"], true)] };
    let gone = reg.session_end(&"s".to_string());
    assert_eq!(gone, Some(segs(&["tmp", "T-RS-TEMPDIR.s"])));
    assert!(reg.entries.is_empty());
}

#[test]
fn session_end_spares_a_persisted_entry() {
    let mut reg = Registry { entries: vec![persistent("s")] };
    assert_eq!(reg.session_end(&"s".to_string()), None);
    assert_eq!(reg.entries.len(), 1);
}

#[test]
fn status_listing_tags_kinds() {
    let reg = Registry {
        entries: vec![
            ephemeral("e", &["tmp", "T-RS-TEMPDIR.e"], true),
            persistent("p"),
        ],
    };
    let listing = reg.active_tempdirs();
    assert_eq!(listing.len(), 2);
    assert_eq!(listing[0], ("e".to_string(), false));
    assert_eq!(listing[1], ("p".to_string(), true));
}

#[test]
fn contains_reports_membership() {
    let reg = Registry { entries: vec![persistent("p")] };
    assert!(reg.contains(&"p".to_string()));
    assert!(!reg.contains(&"q".to_string()));
}

#[test]
fn resolution_prefers_the_current_directory() {
    let here = segs(&["home", "u", "tempdirs", "proj"]);
    let top = "top".to_string();
    let sub = "sub".to_string();
    match resolve_target(Some(here.clone()), Some(&top), Some(&sub)) {
        Resolution::InDir(p) => assert_eq!(p, here),
        _ => panic!("being inside an entry must win"),
    }
    match resolve_target(None, Some(&top), Some(&sub)) {
        Resolution::Named(n) => assert_eq!(n, "top"),
        _ => panic!("the top-level name comes second"),
    }
    match resolve_target(None, None, Some(&sub)) {
        Resolution::Named(n) => assert_eq!(n, "sub"),
        _ => panic!("the subcommand name comes third"),
    }
    assert!(matches!(
        resolve_target(None, None, None),
        Resolution::NoContext
    ));
}
