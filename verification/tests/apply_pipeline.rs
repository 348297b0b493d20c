use reconf::apply::{
    backup_entries, next_phase, start_phase, write_all, ApplyEvent, ApplyPhase, FsModel,
    StepCounts,
};

fn model_with(files: &[(&str, &str)]) -> FsModel {
    let mut fs = FsModel::new();
    for (p, c) in files {
        fs.write(p.to_string(), c.to_string());
    }
    fs
}

fn counts(modules: usize, renders: usize, backups: usize, writes: usize, hooks: usize) -> StepCounts {
    StepCounts { modules, renders, backups, writes, hooks }
}

#[test]
fn fs_model_write_and_lookup() {
    let mut fs = model_with(&[("/etc/a", "one")]);
    assert_eq!(fs.lookup("/etc/a").unwrap(), "one");
    assert!(fs.lookup("/etc/b").is_none());
    fs.write("/etc/a".to_string(), "two".to_string());
    assert_eq!(fs.lookup("/etc/a").unwrap(), "two");
    assert_eq!(fs.files.len(), 1);
}

#[test]
fn backup_holds_old_content_and_write_replaces_it() {
    // Backup before write: the existing target's bytes land in the backup
    // plan under the root-stripped path; the write then puts the new
    // content on disk.
    let mut fs = model_with(&[("/etc/app.conf", "old")]);
    let targets = vec!["/etc/app.conf".to_string()];
    let backup = backup_entries(&targets, &fs);
    assert_eq!(backup, vec![("etc/app.conf".to_string(), "old".to_string())]);
    let rendered = vec![("/etc/app.conf".to_string(), "new".to_string())];
    let failed = write_all(&mut fs, &rendered, &vec![true]);
    assert!(failed.is_empty());
    assert_eq!(fs.lookup("/etc/app.conf").unwrap(), "new");
}

#[test]
fn backup_skips_targets_that_do_not_exist() {
    let fs = model_with(&[("/etc/present", "keep")]);
    let targets = vec!["/etc/absent".to_string(), "/etc/present".to_string()];
    let backup = backup_entries(&targets, &fs);
    assert_eq!(backup, vec![("etc/present".to_string(), "keep".to_string())]);
}

#[test]
fn failed_write_spares_nothing_else() {
    // Partial-write resilience: one failed target is reported, its file
    // stays as it was, and every other target is still written.
    let mut fs = model_with(&[("/etc/a", "a0"), ("/etc/b", "b0")]);
    let rendered = vec![
        ("/etc/a".to_string(), "a1".to_string()),
        ("/etc/b".to_string(), "b1".to_string()),
        ("/etc/c".to_string(), "c1".to_string()),
    ];
    let failed = write_all(&mut fs, &rendered, &vec![true, false, true]);
    assert_eq!(failed, vec!["/etc/b".to_string()]);
    assert_eq!(fs.lookup("/etc/a").unwrap(), "a1");
    assert_eq!(fs.lookup("/etc/b").unwrap(), "b0");
    assert_eq!(fs.lookup("/etc/c").unwrap(), "c1");
}

#[test]
fn phases_run_in_order_to_done() {
    let c = counts(2, 1, 1, 1, 1);
    let mut ph = start_phase(c);
    assert_eq!(ph, ApplyPhase::Executing { next: 0 });
    ph = next_phase(ph, ApplyEvent::ModuleOk, c);
    assert_eq!(ph, ApplyPhase::Executing { next: 1 });
    ph = next_phase(ph, ApplyEvent::ModuleOk, c);
    assert_eq!(ph, ApplyPhase::Rendering { next: 0 });
    ph = next_phase(ph, ApplyEvent::RenderOk, c);
    assert_eq!(ph, ApplyPhase::BackingUp { next: 0 });
    ph = next_phase(ph, ApplyEvent::BackupOk, c);
    assert_eq!(ph, ApplyPhase::Writing { next: 0 });
    ph = next_phase(ph, ApplyEvent::WriteOk, c);
    assert_eq!(ph, ApplyPhase::RunningHooks { next: 0 });
    ph = next_phase(ph, ApplyEvent::HookOk, c);
    assert_eq!(ph, ApplyPhase::Done);
}

#[test]
fn empty_phases_are_skipped() {
    let c = counts(1, 0, 0, 0, 0);
    let ph = next_phase(ApplyPhase::Executing { next: 0 }, ApplyEvent::ModuleOk, c);
    assert_eq!(ph, ApplyPhase::Done);
    let c = counts(0, 0, 0, 2, 0);
    assert_eq!(start_phase(c), ApplyPhase::Writing { next: 0 });
}

#[test]
fn module_failure_aborts_the_run() {
    let c = counts(3, 2, 1, 2, 0);
    let ph = next_phase(ApplyPhase::Executing { next: 1 }, ApplyEvent::ModuleFailed, c);
    assert_eq!(ph, ApplyPhase::Failed);
    let ph = next_phase(ApplyPhase::Rendering { next: 0 }, ApplyEvent::RenderFailed, c);
    assert_eq!(ph, ApplyPhase::Failed);
    let ph = next_phase(ApplyPhase::BackingUp { next: 0 }, ApplyEvent::BackupFailed, c);
    assert_eq!(ph, ApplyPhase::Failed);
    let ph = next_phase(ApplyPhase::RunningHooks { next: 0 }, ApplyEvent::HookFailed, c);
    assert_eq!(ph, ApplyPhase::Failed);
}

#[test]
fn write_failure_continues_the_run() {
    let c = counts(0, 0, 0, 2, 1);
    let after_fail = next_phase(ApplyPhase::Writing { next: 0 }, ApplyEvent::WriteFailed, c);
    let after_ok = next_phase(ApplyPhase::Writing { next: 0 }, ApplyEvent::WriteOk, c);
    assert_eq!(after_fail, after_ok);
    assert_eq!(after_fail, ApplyPhase::Writing { next: 1 });
    let last = next_phase(ApplyPhase::Writing { next: 1 }, ApplyEvent::WriteFailed, c);
    assert_eq!(last, ApplyPhase::RunningHooks { next: 0 });
}

#[test]
fn terminal_phases_stay_terminal() {
    let c = counts(1, 1, 1, 1, 1);
    assert_eq!(next_phase(ApplyPhase::Done, ApplyEvent::ModuleOk, c), ApplyPhase::Done);
    assert_eq!(next_phase(ApplyPhase::Failed, ApplyEvent::WriteOk, c), ApplyPhase::Failed);
}
