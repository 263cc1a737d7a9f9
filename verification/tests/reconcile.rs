use dotlink::manifest::locate_manifest;
use dotlink::manifest::Config;
use dotlink::paths::resolve_target;
use dotlink::reconcile::AddPlan;
use dotlink::reconcile::CandidatePath;
use dotlink::reconcile::EntryState;
use dotlink::reconcile::ObservedEntry;
use dotlink::reconcile::TargetStatus;
use dotlink::reconcile::entry_matches;
use dotlink::reconcile::find_by_target_name;
use dotlink::reconcile::fix;
use dotlink::reconcile::fix_step;
use dotlink::reconcile::plan_add;
use dotlink::reconcile::resolve_candidates;
use dotlink::reconcile::unlink_step;
use dotlink::reconcile::validate;

fn observed(
    source_abs: &str,
    target_abs: &str,
    source_exists: bool,
    target_status: TargetStatus,
) -> ObservedEntry {
    ObservedEntry {
        source_abs: String::from(source_abs),
        target_abs: String::from(target_abs),
        source_exists,
        target_status,
    }
}

#[test]
fn classify_all_states() {
    let link = TargetStatus::Symlink(String::from("/store/bashrc"));
    let obs = vec![
        observed("/store/bashrc", "/home/u/.bashrc", false, TargetStatus::Absent),
        observed("/store/bashrc", "/home/u/.bashrc", true, TargetStatus::Absent),
        observed("/store/bashrc", "/home/u/.bashrc", true, link),
        observed(
            "/store/bashrc",
            "/home/u/.bashrc",
            true,
            TargetStatus::Symlink(String::from("/elsewhere/bashrc")),
        ),
        observed("/store/bashrc", "/home/u/.bashrc", true, TargetStatus::Occupied),
    ];
    let (states, ok) = validate(&obs);
    assert_eq!(
        states,
        vec![
            EntryState::SourceMissing,
            EntryState::TargetMissing,
            EntryState::CorrectLink,
            EntryState::MismatchedLink,
            EntryState::Conflict,
        ]
    );
    assert!(!ok);
}

#[test]
fn validate_ok_when_no_failures() {
    let obs = vec![
        observed(
            "/store/bashrc",
            "/home/u/.bashrc",
            true,
            TargetStatus::Symlink(String::from("/store/bashrc")),
        ),
        observed("/store/vimrc", "/home/u/.vimrc", true, TargetStatus::Absent),
    ];
    let (_, ok) = validate(&obs);
    assert!(ok);
}

#[test]
fn fix_twice_is_idempotent() {
    let obs = vec![observed(
        "/store/bashrc",
        "/home/u/.bashrc",
        true,
        TargetStatus::Absent,
    )];
    let (actions, ok) = fix(&obs);
    assert!(ok);
    let action = actions[0].as_ref().expect("a missing target is repaired");
    assert_eq!(action.link_at, "/home/u/.bashrc");
    assert_eq!(action.points_to, "/store/bashrc");

    // The filesystem after the repair: a symlink to the source.
    let after = vec![observed(
        "/store/bashrc",
        "/home/u/.bashrc",
        true,
        TargetStatus::Symlink(String::from("/store/bashrc")),
    )];
    let (again, ok_again) = fix(&after);
    assert!(again[0].is_none());
    assert!(ok_again);
}

#[test]
fn conflict_is_reported_and_never_repaired() {
    let o = observed("/store/bashrc", "/home/u/.bashrc", true, TargetStatus::Occupied);
    let (states, ok) = validate(&std::vec::Vec::from([o]));
    assert_eq!(states[0], EntryState::Conflict);
    assert!(!ok);

    let o2 = observed("/store/bashrc", "/home/u/.bashrc", true, TargetStatus::Occupied);
    assert!(fix_step(&o2).is_none());
}

#[test]
fn mismatched_link_is_reported_not_overwritten() {
    let o = observed(
        "/store/bashrc",
        "/home/u/.bashrc",
        true,
        TargetStatus::Symlink(String::from("/old/spot")),
    );
    assert!(fix_step(&o).is_none());
    let (states, ok) = validate(&std::vec::Vec::from([o]));
    assert_eq!(states[0], EntryState::MismatchedLink);
    assert!(!ok);
}

#[test]
fn add_moves_fresh_candidate() {
    let mut cfg = Config::new(Some(String::from("/store")));
    let root = String::from("/store");
    let canon = String::from("/home/u/.vimrc");
    match plan_add(&cfg, &root, true, &canon) {
        AddPlan::Move { name, dest, original } => {
            assert_eq!(name, ".vimrc");
            assert_eq!(dest, "/store/.vimrc");
            assert_eq!(original, "/home/u/.vimrc");
            assert!(cfg.record_add(name, original));
        }
        _ => panic!("a fresh candidate is moved into the store"),
    }
    assert_eq!(cfg.entries.len(), 1);
    assert_eq!(cfg.entries[0].source, ".vimrc");
    assert_eq!(cfg.entries[0].target, "/home/u/.vimrc");
}

#[test]
fn add_rejects_second_file_with_same_base_name() {
    let mut cfg = Config::new(Some(String::from("/store")));
    let root = String::from("/store");
    let first = String::from("/home/u/vimrc");
    match plan_add(&cfg, &root, true, &first) {
        AddPlan::Move { name, original, .. } => {
            assert!(cfg.record_add(name, original));
        }
        _ => panic!("the first candidate is moved into the store"),
    }

    // A different file, same base name: rejected, first entry untouched.
    let second = String::from("/tmp/other/vimrc");
    match plan_add(&cfg, &root, true, &second) {
        AddPlan::AlreadyPresent { dest } => assert_eq!(dest, "/store/vimrc"),
        _ => panic!("a colliding base name is rejected"),
    }
    assert_eq!(cfg.entries.len(), 1);
    assert_eq!(cfg.entries[0].source, "vimrc");
    assert_eq!(cfg.entries[0].target, "/home/u/vimrc");

    // The key is the base name alone, so another root rejects it too.
    let other_root = String::from("/other");
    match plan_add(&cfg, &other_root, true, &second) {
        AddPlan::AlreadyPresent { dest } => assert_eq!(dest, "/other/vimrc"),
        _ => panic!("the collision is keyed by the base name, not the root"),
    }
    assert_eq!(cfg.entries.len(), 1);
}

#[test]
fn add_skips_missing_candidate() {
    let cfg = Config::new(None);
    let root = String::from("/store");
    let canon = String::from("/home/u/.vimrc");
    assert!(matches!(
        plan_add(&cfg, &root, false, &canon),
        AddPlan::SkipMissing
    ));
}

#[test]
fn add_rejects_candidate_without_name() {
    let cfg = Config::new(None);
    let root = String::from("/store");
    let canon = String::from("/");
    assert!(matches!(plan_add(&cfg, &root, true, &canon), AddPlan::NoName));
}

#[test]
fn add_then_unlink_round_trip() {
    let mut cfg = Config::new(Some(String::from("/store")));
    let root = String::from("/store");
    let canon = String::from("/home/u/.vimrc");
    let home = Some(String::from("/home/u"));

    let (name, dest, original) = match plan_add(&cfg, &root, true, &canon) {
        AddPlan::Move { name, dest, original } => (name, dest, original),
        _ => panic!("a fresh candidate is moved into the store"),
    };
    assert!(cfg.record_add(name.clone(), original.clone()));
    assert_eq!(cfg.entries.len(), 1);

    // Unlink the same path: the user names the original location.
    let set = resolve_candidates(&vec![CandidatePath {
        path: String::from("/home/u/.vimrc"),
        canonical: true,
    }]);
    let source_abs = cfg.entries("/store")[0].1.clone();
    assert_eq!(source_abs, dest);
    let target_abs = resolve_target(cfg.entries[0].target.as_str(), &home).unwrap();
    // The stored target was absolute, so it resolves back to itself.
    assert_eq!(target_abs, original);
    assert!(entry_matches(&source_abs, &target_abs, &set));

    let step = unlink_step(true, &TargetStatus::Symlink(dest));
    assert!(step.remove_link);
    assert!(step.move_back);
    assert!(!step.conflict_warning);
    assert!(!step.missing_warning);

    cfg.remove_sources(&vec![name]);
    assert_eq!(cfg.entries.len(), 0);
}

#[test]
fn unlink_warns_on_conflicting_target() {
    let step = unlink_step(true, &TargetStatus::Occupied);
    assert!(!step.remove_link);
    assert!(step.conflict_warning);
    assert!(step.move_back);
}

#[test]
fn unlink_warns_on_missing_source() {
    let step = unlink_step(false, &TargetStatus::Symlink(String::from("/store/x")));
    assert!(step.remove_link);
    assert!(!step.move_back);
    assert!(step.missing_warning);
}

#[test]
fn unlink_matches_by_source_or_target() {
    let set = resolve_candidates(&vec![CandidatePath {
        path: String::from("/home/u/.vimrc/"),
        canonical: false,
    }]);
    // The uncanonicalizable candidate was cleaned lexically.
    assert_eq!(set[0], "/home/u/.vimrc");

    let source = String::from("/store/vimrc");
    let target = String::from("/home/u/.vimrc");
    assert!(entry_matches(&source, &target, &set));
    let other = String::from("/home/u/.bashrc");
    assert!(!entry_matches(&source, &other, &set));
}

#[test]
fn fix_scenario_creates_link_then_validates_ok() {
    let mut cfg = Config::new(Some(String::from("/store")));
    assert!(cfg.record_add(String::from("bashrc"), String::from("~/.bashrc")));

    let home = Some(String::from("/home/u"));
    let resolved = cfg.entries("/store");
    assert_eq!(resolved.len(), 1);
    let (name, source_abs, target) = (&resolved[0].0, &resolved[0].1, &resolved[0].2);
    assert_eq!(name, "bashrc");
    assert_eq!(source_abs, "/store/bashrc");
    let target_abs = resolve_target(target.as_str(), &home).unwrap();
    assert_eq!(target_abs, "/home/u/.bashrc");

    // /store/bashrc exists, ~/.bashrc absent: Fix creates the symlink.
    let obs = vec![ObservedEntry {
        source_abs: source_abs.clone(),
        target_abs: target_abs.clone(),
        source_exists: true,
        target_status: TargetStatus::Absent,
    }];
    let (actions, ok) = fix(&obs);
    assert!(ok);
    let action = actions[0].as_ref().unwrap();
    assert_eq!(action.link_at, "/home/u/.bashrc");
    assert_eq!(action.points_to, "/store/bashrc");

    // Afterwards Validate reports a correct link.
    let after = vec![ObservedEntry {
        source_abs: source_abs.clone(),
        target_abs,
        source_exists: true,
        target_status: TargetStatus::Symlink(String::from("/store/bashrc")),
    }];
    let (states, ok2) = validate(&after);
    assert_eq!(states[0], EntryState::CorrectLink);
    assert!(ok2);
}

#[test]
fn entries_cleans_keys_and_targets() {
    let mut cfg = Config::new(Some(String::from("/store")));
    assert!(cfg.record_add(String::from("./nested/../bashrc"), String::from("~/dots/./.bashrc")));
    let resolved = cfg.entries("/store");
    assert_eq!(resolved[0].0, "bashrc");
    assert_eq!(resolved[0].1, "/store/bashrc");
    assert_eq!(resolved[0].2, "~/dots/.bashrc");
}

#[test]
fn record_add_refuses_taken_key() {
    let mut cfg = Config::new(None);
    assert!(cfg.record_add(String::from("/store/x"), String::from("/a")));
    assert!(!cfg.record_add(String::from("/store/x"), String::from("/b")));
    assert_eq!(cfg.entries.len(), 1);
    assert_eq!(cfg.entries[0].target, "/a");
}

#[test]
fn locate_manifest_prefers_existing_primary() {
    let alt = Some(String::from("/dots/Link.toml"));
    let r = locate_manifest(String::from("/cwd/Link.toml"), true, &alt, true);
    assert_eq!(r, Some(String::from("/cwd/Link.toml")));
}

#[test]
fn locate_manifest_falls_back_to_env_directory() {
    let alt = Some(String::from("/dots/Link.toml"));
    let r = locate_manifest(String::from("/cwd/Link.toml"), false, &alt, true);
    assert_eq!(r, Some(String::from("/dots/Link.toml")));
}

#[test]
fn locate_manifest_reports_absence() {
    let alt = Some(String::from("/dots/Link.toml"));
    assert_eq!(
        locate_manifest(String::from("/cwd/Link.toml"), false, &alt, false),
        None
    );
    assert_eq!(
        locate_manifest(String::from("/cwd/Link.toml"), false, &None, false),
        None
    );
}

#[test]
fn find_by_target_name_picks_first_match() {
    let mut cfg = Config::new(None);
    assert!(cfg.record_add(String::from("bashrc"), String::from("~/.bashrc")));
    assert!(cfg.record_add(String::from("vimrc"), String::from("~/.vimrc")));
    assert_eq!(find_by_target_name(&cfg, &String::from(".vimrc")), Some(1));
    assert_eq!(find_by_target_name(&cfg, &String::from(".bashrc")), Some(0));
    assert_eq!(find_by_target_name(&cfg, &String::from(".zshrc")), None);
}
