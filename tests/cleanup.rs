use spacecleaner::engine::{
    freed_by_file_pass, total_freed, total_reported, BatchRun, CleanupAction, CleanupEvent, CleanupOutcome,
    FileRemoval, TargetConfig, TargetRun, TargetStatus,
};
use spacecleaner::registry::{
    builtin_entries, label_config, resolve_path, target_config, tool_command, BatchScope,
    CacheCategory, CacheEntry, CacheRegistry, CleanTool, RegistryError, Removal,
};

fn registry() -> CacheRegistry {
    CacheRegistry::new(builtin_entries()).ok().expect("built-in names are unique")
}

/// Drives one target with scripted observations; returns the actions asked
/// for and the outcome.
fn drive(config: TargetConfig, events: &[CleanupEvent]) -> (Vec<CleanupAction>, Option<CleanupOutcome>) {
    let mut run = TargetRun::new(config);
    let mut actions = vec![run.action()];
    for e in events {
        run.handle(*e);
        actions.push(run.action());
    }
    (actions, run.outcome())
}

fn pip_config(dry_run: bool) -> TargetConfig {
    let reg = registry();
    let pip = reg.find_by_name("pip").expect("pip is registered");
    target_config(pip, dry_run, true)
}

#[test]
fn pip_dry_run_reports_without_attempting() {
    let reg = registry();
    let pip = reg.find_by_name("pip").expect("pip is registered");
    assert_eq!(pip.path, "~/Library/Caches/pip");
    let (actions, outcome) = drive(
        pip_config(true),
        &[CleanupEvent::Exists(true), CleanupEvent::Measured(42_000_000)],
    );
    assert_eq!(
        actions,
        vec![CleanupAction::CheckExists, CleanupAction::Measure, CleanupAction::Finished]
    );
    let o = outcome.expect("finished");
    assert_eq!(o.bytes_freed, 42_000_000);
    assert!(!o.succeeded);
    assert!(!o.attempted);
}

#[test]
fn pip_cleanup_deletes_and_recreates() {
    let (actions, outcome) = drive(
        pip_config(false),
        &[
            CleanupEvent::Exists(true),
            CleanupEvent::Measured(42_000_000),
            CleanupEvent::TreeRemoved(true),
            CleanupEvent::Recreated(true),
        ],
    );
    assert_eq!(
        actions,
        vec![
            CleanupAction::CheckExists,
            CleanupAction::Measure,
            CleanupAction::RemoveTree,
            CleanupAction::Recreate,
            CleanupAction::Finished,
        ]
    );
    let o = outcome.expect("finished");
    assert_eq!(o.status, TargetStatus::Deleted);
    assert_eq!(o.bytes_freed, 42_000_000);
    assert!(o.succeeded);
}

#[test]
fn failed_recreation_does_not_change_the_outcome() {
    let (_, outcome) = drive(
        pip_config(false),
        &[
            CleanupEvent::Exists(true),
            CleanupEvent::Measured(10),
            CleanupEvent::TreeRemoved(true),
            CleanupEvent::Recreated(false),
        ],
    );
    assert_eq!(outcome.expect("finished").status, TargetStatus::Deleted);
}

#[test]
fn dry_run_never_asks_to_change_anything() {
    let events = [
        CleanupEvent::Exists(true),
        CleanupEvent::Measured(5),
        CleanupEvent::TreeRemoved(true),
        CleanupEvent::Answered(true),
        CleanupEvent::Recreated(true),
    ];
    for removal in [Removal::DeleteTree, Removal::Tool(CleanTool::NpmCacheClean)] {
        for authorized in [false, true] {
            let config = TargetConfig {
                category: CacheCategory::SystemCache,
                removal,
                dry_run: true,
                authorized,
                floor: 0,
            };
            let (actions, _) = drive(config, &events);
            for a in actions {
                assert!(matches!(
                    a,
                    CleanupAction::CheckExists | CleanupAction::Measure | CleanupAction::Finished
                ));
            }
        }
    }
}

#[test]
fn absent_empty_and_declined_targets_are_skipped() {
    let mut config = pip_config(false);
    let (_, absent) = drive(config, &[CleanupEvent::Exists(false)]);
    assert_eq!(absent.expect("finished").status, TargetStatus::Skipped);
    let (_, empty) = drive(config, &[CleanupEvent::Exists(true), CleanupEvent::Measured(0)]);
    assert_eq!(empty.expect("finished").status, TargetStatus::Skipped);
    config.authorized = false;
    let (actions, declined) = drive(
        config,
        &[CleanupEvent::Exists(true), CleanupEvent::Measured(300), CleanupEvent::Answered(false)],
    );
    assert_eq!(actions[2], CleanupAction::Confirm { bytes: 300 });
    let o = declined.expect("finished");
    assert_eq!(o.status, TargetStatus::Skipped);
    assert_eq!(o.bytes_freed, 0);
}

#[test]
fn confirmed_target_is_removed() {
    let mut config = pip_config(false);
    config.authorized = false;
    let (_, outcome) = drive(
        config,
        &[
            CleanupEvent::Exists(true),
            CleanupEvent::Measured(300),
            CleanupEvent::Answered(true),
            CleanupEvent::TreeRemoved(true),
            CleanupEvent::Recreated(true),
        ],
    );
    assert_eq!(outcome.expect("finished").bytes_freed, 300);
}

#[test]
fn failed_tree_removal_falls_back_to_files() {
    let config = label_config("node_modules", false);
    let (actions, outcome) = drive(
        config,
        &[
            CleanupEvent::Exists(true),
            CleanupEvent::Measured(5_000_000),
            CleanupEvent::TreeRemoved(false),
            CleanupEvent::FilesRemoved(3_000_000),
        ],
    );
    assert_eq!(actions[3], CleanupAction::RemoveFiles);
    let o = outcome.expect("finished");
    assert_eq!(o.status, TargetStatus::PartiallyDeleted);
    assert_eq!(o.bytes_freed, 3_000_000);
    assert!(o.succeeded);
}

#[test]
fn freed_bytes_never_exceed_the_measurement() {
    let config = label_config("Caches/Yarn", false);
    let (_, grown) = drive(
        config,
        &[
            CleanupEvent::Exists(true),
            CleanupEvent::Measured(2_000_000),
            CleanupEvent::TreeRemoved(false),
            CleanupEvent::FilesRemoved(9_000_000),
        ],
    );
    assert_eq!(grown.expect("finished").bytes_freed, 2_000_000);
    let (_, nothing) = drive(
        config,
        &[
            CleanupEvent::Exists(true),
            CleanupEvent::Measured(2_000_000),
            CleanupEvent::TreeRemoved(false),
            CleanupEvent::FilesRemoved(0),
        ],
    );
    let o = nothing.expect("finished");
    assert_eq!(o.status, TargetStatus::Failed);
    assert_eq!(o.bytes_freed, 0);
    assert!(!o.succeeded);
}

#[test]
fn tool_cleanup_frees_the_difference() {
    let reg = registry();
    let npm = reg.find_by_name("npm").expect("npm is registered");
    let config = target_config(npm, false, true);
    let (actions, outcome) = drive(
        config,
        &[
            CleanupEvent::Exists(true),
            CleanupEvent::Measured(1000),
            CleanupEvent::ToolFinished(true),
            CleanupEvent::Measured(400),
        ],
    );
    assert_eq!(actions[2], CleanupAction::RunTool);
    assert_eq!(actions[3], CleanupAction::Remeasure);
    let o = outcome.expect("finished");
    assert_eq!(o.status, TargetStatus::Deleted);
    assert_eq!(o.bytes_freed, 600);
    let (_, failed) = drive(
        config,
        &[CleanupEvent::Exists(true), CleanupEvent::Measured(1000), CleanupEvent::ToolFinished(false)],
    );
    assert_eq!(failed.expect("finished").status, TargetStatus::Failed);
}

#[test]
fn development_caches_below_one_mebibyte_are_skipped() {
    let reg = registry();
    let gradle = reg.find_by_name("gradle").expect("gradle is registered");
    let config = target_config(gradle, false, true);
    let (_, small) = drive(config, &[CleanupEvent::Exists(true), CleanupEvent::Measured(1048576)]);
    assert_eq!(small.expect("finished").status, TargetStatus::Skipped);
    let (actions, _) = drive(config, &[CleanupEvent::Exists(true), CleanupEvent::Measured(1048577)]);
    assert_eq!(actions[2], CleanupAction::RemoveTree);
}

#[test]
fn unexpected_event_changes_nothing() {
    let (actions, outcome) = drive(pip_config(false), &[CleanupEvent::Measured(5)]);
    assert_eq!(actions, vec![CleanupAction::CheckExists, CleanupAction::CheckExists]);
    assert_eq!(outcome, None);
}

#[test]
fn batch_with_missing_second_target() {
    let config = pip_config(false);
    let mut batch = BatchRun::new(vec![config, config, config]);
    let script: Vec<Vec<CleanupEvent>> = vec![
        vec![
            CleanupEvent::Exists(true),
            CleanupEvent::Measured(1000),
            CleanupEvent::TreeRemoved(true),
            CleanupEvent::Recreated(true),
        ],
        vec![CleanupEvent::Exists(false)],
        vec![
            CleanupEvent::Exists(true),
            CleanupEvent::Measured(2500),
            CleanupEvent::TreeRemoved(true),
            CleanupEvent::Recreated(true),
        ],
    ];
    for (index, events) in script.iter().enumerate() {
        for e in events {
            let (i, _) = batch.pending().expect("targets left");
            assert_eq!(i, index);
            batch.handle(*e);
        }
    }
    assert_eq!(batch.pending(), None);
    let statuses: Vec<TargetStatus> = batch.outcomes().iter().map(|o| o.status).collect();
    assert_eq!(statuses, vec![TargetStatus::Deleted, TargetStatus::Skipped, TargetStatus::Deleted]);
    assert_eq!(batch.total(), 3500);
}

#[test]
fn aggregate_counts_only_successes() {
    let ok = CleanupOutcome { status: TargetStatus::Deleted, bytes_freed: 10, attempted: true, succeeded: true };
    let dry = CleanupOutcome { status: TargetStatus::Skipped, bytes_freed: 99, attempted: false, succeeded: false };
    assert_eq!(total_freed(&vec![ok, dry, ok]), 20);
    assert_eq!(total_freed(&vec![]), 0);
    let huge = CleanupOutcome { bytes_freed: u64::MAX, ..ok };
    assert_eq!(total_freed(&vec![huge, ok]), u64::MAX);
}

#[test]
fn file_pass_counts_removed_files_only() {
    let files = vec![
        FileRemoval { bytes: 100, removed: true },
        FileRemoval { bytes: 50, removed: false },
        FileRemoval { bytes: 7, removed: true },
    ];
    assert_eq!(freed_by_file_pass(&files), 107);
    assert_eq!(freed_by_file_pass(&vec![]), 0);
}

#[test]
fn registry_lookup() {
    let reg = registry();
    assert_eq!(reg.list_all().len(), 16);
    let npm = reg.find_by_name("npm").expect("npm is registered");
    assert_eq!(npm.path, "~/.npm");
    assert_eq!(npm.removal, Removal::Tool(CleanTool::NpmCacheClean));
    assert!(reg.find_by_name("nope").is_none());
}

#[test]
fn registry_refuses_duplicate_names() {
    let a = CacheEntry {
        name: "x".to_string(),
        path: "~/x".to_string(),
        category: CacheCategory::Temp,
        removal: Removal::DeleteTree,
        quick: false,
    };
    let b = CacheEntry {
        name: "x".to_string(),
        path: "~/y".to_string(),
        category: CacheCategory::Temp,
        removal: Removal::DeleteTree,
        quick: false,
    };
    assert_eq!(CacheRegistry::new(vec![a, b]).err(), Some(RegistryError::DuplicateName));
}

#[test]
fn paths_resolve_against_a_substituted_home() {
    let reg = registry();
    let pip = reg.find_by_name("pip").expect("pip is registered");
    assert_eq!(resolve_path(pip, "/home/tester"), "/home/tester/Library/Caches/pip");
    let tmp = reg.find_by_name("tmp").expect("tmp is registered");
    assert_eq!(resolve_path(tmp, "/home/tester"), "/tmp");
}

#[test]
fn tool_commands() {
    assert_eq!(tool_command(CleanTool::NpmCacheClean, "/h/.npm"), vec!["npm", "cache", "clean", "--force"]);
    assert_eq!(
        tool_command(CleanTool::RemoveStaleFiles, "/var/tmp"),
        vec!["find", "/var/tmp", "-type", "f", "-mtime", "+7", "-exec", "rm", "{}", "+"]
    );
}

#[test]
fn batch_scopes() {
    let reg = registry();
    let names = |scope| -> Vec<String> {
        reg.batch_indices(scope).iter().map(|i| reg.list_all()[*i].name.clone()).collect()
    };
    assert_eq!(names(BatchScope::Quick), vec!["homebrew", "pip", "npm", "composer", "node-gyp"]);
    assert_eq!(names(BatchScope::DevelopmentCaches), vec!["gradle", "maven", "cargo", "go", "android"]);
    assert_eq!(names(BatchScope::AllCaches).len(), 11);
}

#[test]
fn label_configs() {
    assert_eq!(label_config("Caches/pip", true).category, CacheCategory::SystemCache);
    assert_eq!(label_config(".npm", false).category, CacheCategory::DevToolCache);
    assert!(label_config(".npm", false).authorized);
}

#[test]
fn reported_total_includes_dry_run_sizes() {
    let ok = CleanupOutcome { status: TargetStatus::Deleted, bytes_freed: 10, attempted: true, succeeded: true };
    let dry = CleanupOutcome { status: TargetStatus::Skipped, bytes_freed: 99, attempted: false, succeeded: false };
    let gone = CleanupOutcome { status: TargetStatus::Skipped, bytes_freed: 0, attempted: false, succeeded: false };
    assert_eq!(total_reported(&vec![dry, gone, dry]), 198);
    assert_eq!(total_reported(&vec![ok, gone]), total_freed(&vec![ok, gone]));
}

#[test]
fn declined_target_does_not_stop_the_batch() {
    let mut config = pip_config(false);
    config.authorized = false;
    let mut batch = BatchRun::new(vec![config, config]);
    let events = [
        CleanupEvent::Exists(true),
        CleanupEvent::Measured(50),
        CleanupEvent::Answered(false),
        CleanupEvent::Exists(true),
        CleanupEvent::Measured(70),
        CleanupEvent::Answered(true),
        CleanupEvent::TreeRemoved(false),
        CleanupEvent::FilesRemoved(60),
    ];
    let mut seen = Vec::new();
    for e in events {
        seen.push(batch.pending().expect("targets left"));
        batch.handle(e);
    }
    assert_eq!(seen[2], (0, CleanupAction::Confirm { bytes: 50 }));
    assert_eq!(seen[3], (1, CleanupAction::CheckExists));
    assert_eq!(seen[7], (1, CleanupAction::RemoveFiles));
    assert_eq!(batch.pending(), None);
    let statuses: Vec<TargetStatus> = batch.outcomes().iter().map(|o| o.status).collect();
    assert_eq!(statuses, vec![TargetStatus::Skipped, TargetStatus::PartiallyDeleted]);
    assert_eq!(batch.total(), 60);
}

#[test]
fn small_picked_directory_is_measured_and_cleaned() {
    let (_, dry) = drive(
        label_config(".npm", true),
        &[CleanupEvent::Exists(true), CleanupEvent::Measured(1000)],
    );
    let o = dry.expect("finished");
    assert_eq!(o.bytes_freed, 1000);
    assert!(!o.attempted);
    let (actions, done) = drive(
        label_config(".npm", false),
        &[CleanupEvent::Exists(true), CleanupEvent::Measured(1000), CleanupEvent::TreeRemoved(true)],
    );
    assert_eq!(actions[2], CleanupAction::RemoveTree);
    assert_eq!(done.expect("finished").bytes_freed, 1000);
    let (_, empty) = drive(
        label_config(".npm", false),
        &[CleanupEvent::Exists(true), CleanupEvent::Measured(0)],
    );
    assert_eq!(empty.expect("finished").status, TargetStatus::Skipped);
}
