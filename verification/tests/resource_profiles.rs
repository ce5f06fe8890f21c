use eidos_service::device_control::DeviceLimits;
use eidos_service::resource_control::ResourceLimits;
use eidos_service::resource_profiles::{
    check_journal, component_change, component_rank, current_settings, journal_too_large,
    ordered_steps, plan_operation, settings_view, ApplyStart, ComponentChange, LiveOperation,
    OperationJournal, OperationStep, OperationTurn, RepairStart, ResourceApplyOutcome,
    ResourceComponent, ResourceProfileControl, ResourceSettings, JOURNAL_VERSION,
};
use std::cell::{Cell, RefCell};

fn settings() -> ResourceSettings {
    ResourceSettings {
        content_workers: 4,
        scan_threads: 8,
        concurrent_scans: 1,
        minimum_free_mib: 1024,
        readers_per_device: 2,
    }
}

fn journal(steps: Vec<ResourceComponent>) -> OperationJournal {
    OperationJournal {
        version: JOURNAL_VERSION,
        target: settings(),
        steps,
        completed: 0,
        failure: None,
    }
}

/// Apply a component to settings, as its owner does.
fn put(s: &mut ResourceSettings, change: ComponentChange) {
    match change {
        ComponentChange::Workers(n) => s.content_workers = n,
        ComponentChange::Limits(l) => {
            s.scan_threads = l.scan_threads;
            s.concurrent_scans = l.concurrent_scans;
            s.minimum_free_mib = l.minimum_free_mib;
        }
        ComponentChange::Readers(l) => s.readers_per_device = l.readers_per_device,
    }
}

#[test]
fn tightening_steps_precede_relaxing_steps() {
    let current = ResourceSettings {
        content_workers: 4,
        scan_threads: 4,
        concurrent_scans: 1,
        minimum_free_mib: 1024,
        readers_per_device: 2,
    };
    let target = ResourceSettings {
        content_workers: 8,
        scan_threads: 2,
        concurrent_scans: 1,
        minimum_free_mib: 1024,
        readers_per_device: 1,
    };
    assert_eq!(
        ordered_steps(current, target),
        vec![
            ResourceComponent::MetadataLimits,
            ResourceComponent::DeviceReaders,
            ResourceComponent::ContentWorkers,
        ]
    );
}

#[test]
fn unreadable_or_invalid_journal_fails_recovery_closed() {
    let twice = journal(vec![
        ResourceComponent::ContentWorkers,
        ResourceComponent::ContentWorkers,
    ]);
    assert!(check_journal(&twice).unwrap_err().contains("duplicate"));
    let mut j = journal(vec![ResourceComponent::ContentWorkers]);
    assert_eq!(check_journal(&j), Ok(()));
    j.version = 2;
    assert_eq!(
        check_journal(&j).unwrap_err(),
        "unsupported coordinated resource journal version 2"
    );
    let mut j = journal(vec![ResourceComponent::ContentWorkers]);
    j.target.content_workers = 65;
    assert_eq!(
        check_journal(&j).unwrap_err(),
        "content workers must be 1..64"
    );
    let j = journal(vec![]);
    assert_eq!(
        check_journal(&j).unwrap_err(),
        "invalid coordinated resource step count"
    );
    let mut j = journal(vec![ResourceComponent::ContentWorkers]);
    j.completed = 2;
    assert_eq!(
        check_journal(&j).unwrap_err(),
        "invalid completed step count"
    );
    let j = journal(vec![ResourceComponent::JournalCleanup]);
    assert_eq!(
        check_journal(&j).unwrap_err(),
        "invalid component in coordinated resource journal"
    );
    assert_eq!(journal_too_large("j.json", 65536), None);
    assert_eq!(
        journal_too_large("j.json", 65537).unwrap(),
        "j.json exceeds 65536 bytes"
    );
}

#[test]
fn partial_component_failure_reports_live_state_and_repair_converges() {
    let mut control = ResourceProfileControl::new();
    let mut live = settings();
    let target = ResourceSettings {
        scan_threads: 4,
        readers_per_device: 1,
        ..live
    };
    // Metadata tightens first; the device replacement then fails without
    // preventing the durable journal from naming the remaining target.
    let mut j = match control.apply(live, target, &Ok(None)).unwrap() {
        ApplyStart::Begin(j) => j,
        ApplyStart::Settled(_) => panic!("something changes"),
    };
    assert_eq!(
        j.next_step(),
        OperationStep::Apply(ResourceComponent::MetadataLimits)
    );
    let process = Cell::new(live);
    let broken = Cell::new(true);
    let ops = LiveOperation {
        apply: |change: ComponentChange| {
            if broken.get() && matches!(change, ComponentChange::Readers(_)) {
                return Err("is a directory".to_string());
            }
            let mut settings = process.get();
            put(&mut settings, change);
            process.set(settings);
            Ok(())
        },
        write: |_: &OperationJournal| Ok(()),
        remove: || Ok(()),
        current: || process.get(),
    };
    let result = control.run_live_operation(&ops, &mut j);
    assert_eq!(result.outcome, ResourceApplyOutcome::Partial);
    assert_eq!(result.current.scan_threads, 4);
    assert_eq!(result.current.readers_per_device, 2);
    assert_eq!(result.error.as_deref(), Some("is a directory"));
    let pending = result.pending.unwrap();
    assert_eq!(
        pending.completed_components,
        vec![ResourceComponent::MetadataLimits]
    );
    assert_eq!(
        pending.next_component,
        Some(ResourceComponent::DeviceReaders)
    );
    assert_eq!(
        pending.failed_component,
        Some(ResourceComponent::DeviceReaders)
    );
    assert!(!pending.cleanup_pending);

    broken.set(false);
    live = process.get();
    let mut j = match control.repair(live, Ok(Some(j))).unwrap() {
        RepairStart::Resume(j) => j,
        RepairStart::Settled(_) => panic!("something is pending"),
    };
    let repaired = control.run_live_operation(&ops, &mut j);
    assert_eq!(repaired.outcome, ResourceApplyOutcome::Applied);
    assert_eq!(repaired.current, target);
    assert!(repaired.pending.is_none());
    assert!(control.last_failure.is_none());
}

#[test]
fn startup_replays_the_journal_before_component_controls_load() {
    let mut files = settings();
    let target = ResourceSettings {
        content_workers: 3,
        scan_threads: 2,
        concurrent_scans: 2,
        minimum_free_mib: 2048,
        readers_per_device: 3,
    };
    let mut j = plan_operation(files, target).unwrap();
    assert_eq!(check_journal(&j), Ok(()));
    while let OperationStep::Apply(c) = j.next_step() {
        put(&mut files, component_change(target, c).unwrap());
        j.recovered(Ok(())).unwrap();
        assert_eq!(check_journal(&j), Ok(()));
    }
    assert_eq!(files, target);
    assert_eq!(j.next_step(), OperationStep::RemoveJournal);
}

#[test]
fn recovery_failures_stop_the_start_but_cleanup_does_not() {
    let mut j = journal(vec![ResourceComponent::DeviceReaders]);
    assert_eq!(
        j.recovered(Err("disk full".to_string())).unwrap_err(),
        "recovering coordinated device reader limit failed: disk full"
    );
    assert_eq!(j.completed, 0);
    j.recovered(Ok(())).unwrap();
    j.recovery_uncleaned("busy");
    let f = j.failure.as_ref().unwrap();
    assert_eq!(f.component, ResourceComponent::JournalCleanup);
    assert_eq!(
        f.error,
        "all target settings recovered, but the completed operation journal could not be removed: busy"
    );
    assert_eq!(check_journal(&j), Ok(()));
}

#[test]
fn every_failure_of_the_journal_is_reported() {
    let mut control = ResourceProfileControl::new();
    let failed = control.journal_unwritten(settings(), "read-only");
    assert_eq!(failed.outcome, ResourceApplyOutcome::Failed);
    assert!(failed.pending.is_none());
    assert_eq!(
        failed.error.as_deref(),
        Some("no settings changed because the operation journal could not be written: read-only")
    );
    assert_eq!(
        control.last_failure.as_ref().unwrap().error,
        "no settings changed because the operation journal could not be written: read-only"
    );
    let mut j = journal(vec![ResourceComponent::ContentWorkers]);
    j.note_applied(Err("boom".to_string()));
    assert_eq!(
        control.checkpointed(&mut j, Err("full".to_string())),
        OperationTurn::Stop
    );
    assert_eq!(
        control.last_failure.as_ref().unwrap().error,
        "boom; recording that failure also failed: full"
    );
    j.note_applied(Ok(()));
    assert_eq!(
        control.checkpointed(&mut j, Err("full".to_string())),
        OperationTurn::Stop
    );
    let f = control.last_failure.as_ref().unwrap();
    assert_eq!(f.component, ResourceComponent::OperationJournal);
    assert_eq!(
        f.error,
        "content worker limit changed, but progress could not be checkpointed: full"
    );
    assert!(!control.removed(&mut j, Err("locked".to_string())));
    assert_eq!(
        control.last_failure.as_ref().unwrap().error,
        "all target settings are live, but the completed operation journal could not be removed: locked"
    );
    let v = settings_view(
        settings(),
        ResourceApplyOutcome::Current,
        Some(&j),
        control.last_failure.as_ref(),
    );
    assert_eq!(v.outcome, ResourceApplyOutcome::Partial);
    assert!(v.pending.unwrap().cleanup_pending);
}

#[test]
fn an_incomplete_operation_blocks_other_changes() {
    let mut control = ResourceProfileControl::new();
    let pending = Ok(Some(journal(vec![ResourceComponent::ContentWorkers])));
    let e = control.admit_manual_update(&pending).unwrap_err();
    assert_eq!(e.status, 409);
    assert_eq!(
        e.message,
        "a coordinated resource change is incomplete; repair it before saving an individual control"
    );
    let e = control.apply(settings(), settings(), &pending).unwrap_err();
    assert_eq!(
        (e.status, e.message.as_str()),
        (
            409,
            "a coordinated resource change is incomplete; repair it before applying another target"
        )
    );
    let unreadable = Err("bad json".to_string());
    let e = control.admit_manual_update(&unreadable).unwrap_err();
    assert_eq!(
        (e.status, e.message.as_str()),
        (
            500,
            "cannot verify the coordinated resource journal: bad json"
        )
    );
    let e = control.status(settings(), &unreadable).unwrap_err();
    assert_eq!(
        e.message,
        "cannot read the coordinated resource journal: bad json"
    );
    let shown = control.status(settings(), &pending).unwrap();
    assert_eq!(shown.outcome, ResourceApplyOutcome::Partial);
    let bad = ResourceSettings {
        readers_per_device: 65,
        ..settings()
    };
    let e = control.apply(settings(), bad, &pending).unwrap_err();
    assert_eq!(
        (e.status, e.message.as_str()),
        (400, "device reader limit must be 1..64")
    );
    match control.apply(settings(), settings(), &Ok(None)).unwrap() {
        ApplyStart::Settled(v) => {
            assert_eq!(v.outcome, ResourceApplyOutcome::Applied);
            assert_eq!((v.current, v.error), (settings(), None));
        }
        ApplyStart::Begin(_) => panic!("nothing changes"),
    }
    assert_eq!(
        control.manual_update::<u32>(Err("E".to_string())).unwrap_err().status,
        500
    );
    assert_eq!(control.manual_update(Ok(3)).unwrap(), 3);
    match control.repair(settings(), Ok(None)).unwrap() {
        RepairStart::Settled(v) => assert_eq!(v.outcome, ResourceApplyOutcome::Current),
        RepairStart::Resume(_) => panic!("nothing is pending"),
    }
}

#[test]
fn components_have_owners_and_an_order() {
    let target = settings();
    assert_eq!(
        component_change(target, ResourceComponent::ContentWorkers),
        Ok(ComponentChange::Workers(4))
    );
    assert_eq!(
        component_change(target, ResourceComponent::DeviceReaders),
        Ok(ComponentChange::Readers(DeviceLimits {
            readers_per_device: 2
        }))
    );
    assert_eq!(
        component_change(target, ResourceComponent::OperationJournal),
        Err("invalid settings component in operation plan")
    );
    assert_eq!(component_rank(ResourceComponent::MetadataLimits), 1);
    let limits = ResourceLimits {
        scan_threads: 8,
        concurrent_scans: 1,
        minimum_free_mib: 1024,
    };
    assert_eq!(current_settings(0, 4, 9, limits, 2), settings());
    assert_eq!(current_settings(1, 4, 9, limits, 2).content_workers, 9);
}

#[test]
fn an_operation_is_applied_only_if_everything_succeeded() {
    let steps = vec![
        ResourceComponent::MetadataLimits,
        ResourceComponent::ContentWorkers,
    ];
    // Which write fails, and whether the removal does.
    let run = |failing_write: usize, removable: bool| {
        let mut control = ResourceProfileControl::new();
        let mut j = journal(steps.clone());
        let applied = RefCell::new(Vec::new());
        let writes = Cell::new(0);
        let ops = LiveOperation {
            apply: |change: ComponentChange| {
                applied.borrow_mut().push(change);
                Ok(())
            },
            write: |_: &OperationJournal| {
                writes.set(writes.get() + 1);
                if writes.get() == failing_write {
                    Err("full".to_string())
                } else {
                    Ok(())
                }
            },
            remove: || {
                if removable {
                    Ok(())
                } else {
                    Err("locked".to_string())
                }
            },
            current: settings,
        };
        let view = control.run_live_operation(&ops, &mut j);
        let count = applied.borrow().len();
        (view, count, control.last_failure.map(|f| f.component))
    };
    let (view, applied, failure) = run(0, true);
    assert_eq!(view.outcome, ResourceApplyOutcome::Applied);
    assert!(view.pending.is_none() && view.error.is_none());
    assert_eq!((applied, failure), (2, None));

    let (view, applied, failure) = run(1, true);
    assert_eq!(view.outcome, ResourceApplyOutcome::Partial);
    assert_eq!(applied, 1, "the first unrecorded step stops the operation");
    assert_eq!(failure, Some(ResourceComponent::OperationJournal));
    let pending = view.pending.unwrap();
    assert_eq!(pending.target, settings());
    assert_eq!(
        pending.completed_components,
        vec![ResourceComponent::MetadataLimits]
    );

    let (view, applied, failure) = run(0, false);
    assert_eq!(view.outcome, ResourceApplyOutcome::Partial);
    assert_eq!(
        (applied, failure),
        (2, Some(ResourceComponent::JournalCleanup))
    );
    assert!(view.pending.unwrap().cleanup_pending);
}
