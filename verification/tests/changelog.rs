//! The change log: codec round trip, rollback order, undo actions and
//! the cleanup script.

use exliar_vfio::state::{Change, StateTracker, UndoAction, render_log_doc, parse_log_doc,
    rollback_outcome};
use exliar_vfio::errors::VfioError;

fn sample_changes() -> Vec<Change> {
    vec![
        Change::FileModified {
            path: "/etc/default/grub".to_string(),
            backup_path: "/etc/default/grub.backup_20240101_000000".to_string(),
        },
        Change::KernelParamAdded {
            parameter: "iommu=pt".to_string(),
            bootloader: "grub".to_string(),
        },
        Change::KernelParamRemoved {
            parameter: "quiet".to_string(),
            bootloader: "grub".to_string(),
            original_value: Some("quiet".to_string()),
        },
        Change::ModuleLoaded {
            name: "vfio".to_string(),
            config_path: "/etc/modules-load.d/vfio-pci-load.conf".to_string(),
            backup_path: None,
        },
        Change::DriverBound {
            device_bdf: "0000:01:00.0".to_string(),
            new_driver: "vfio-pci".to_string(),
            original_driver: Some("nvidia".to_string()),
        },
        Change::DriverUnbound {
            device_bdf: "0000:01:00.1".to_string(),
            original_driver: None,
        },
    ]
}

#[test]
fn log_round_trips_through_the_document() {
    let changes = sample_changes();
    let doc = render_log_doc(&changes);
    let back = parse_log_doc(&doc).unwrap();
    assert_eq!(back, changes);
}

#[test]
fn empty_log_round_trips() {
    let doc = render_log_doc(&Vec::new());
    assert_eq!(doc, "[]");
    let back = parse_log_doc(&doc).unwrap();
    assert!(back.is_empty());
}

#[test]
fn escaped_text_round_trips() {
    let changes = vec![Change::FileModified {
        path: "/tmp/we\"ird\\name\nwith\ttabs".to_string(),
        backup_path: "/tmp/ba\rck".to_string(),
    }];
    let doc = render_log_doc(&changes);
    let back = parse_log_doc(&doc).unwrap();
    assert_eq!(back, changes);
}

#[test]
fn garbage_documents_are_rejected() {
    assert!(parse_log_doc("").is_none());
    assert!(parse_log_doc("{}").is_none());
    assert!(parse_log_doc("[{\"type\":\"something_else\"}]").is_none());
    assert!(parse_log_doc("[] ").is_none());
}

#[test]
fn fresh_start_on_unparsable_state() {
    let garbage = "not json at all".to_string();
    let (tracker, fresh) = StateTracker::new(".state.json".to_string(), Some(&garbage));
    assert!(fresh);
    assert!(tracker.changes.is_empty());
}

#[test]
fn load_state_rejects_invalid_data() {
    let err = StateTracker::load_state(".state.json".to_string(), "nope").unwrap_err();
    assert_eq!(err, VfioError::InvalidData);
}

#[test]
fn recording_appends_and_serializes() {
    let (mut tracker, _) = StateTracker::new(".state.json".to_string(), None);
    let doc = tracker.record_change(Change::KernelParamAdded {
        parameter: "iommu=pt".to_string(),
        bootloader: "grub".to_string(),
    });
    assert_eq!(tracker.changes.len(), 1);
    assert_eq!(
        doc,
        "[{\"type\":\"kernel_param_added\",\"parameter\":\"iommu=pt\",\"bootloader\":\"grub\"}]"
    );
    let reloaded = StateTracker::load_state(".state.json".to_string(), &doc).unwrap();
    assert_eq!(reloaded.changes, tracker.changes);
}

#[test]
fn rollback_runs_newest_first() {
    let (mut tracker, _) = StateTracker::new(".state.json".to_string(), None);
    let a = Change::FileModified { path: "/a".to_string(), backup_path: "/a.bak".to_string() };
    let b = Change::FileModified { path: "/b".to_string(), backup_path: "/b.bak".to_string() };
    let c = Change::FileModified { path: "/c".to_string(), backup_path: "/c.bak".to_string() };
    tracker.record_change(a);
    tracker.record_change(b);
    tracker.record_change(c);
    let (plan, doc) = tracker.rollback_all();
    assert!(tracker.changes.is_empty());
    assert_eq!(doc, "[]");
    assert_eq!(
        plan,
        vec![
            UndoAction::RestoreFile { path: "/c".to_string(), backup_path: "/c.bak".to_string() },
            UndoAction::RestoreFile { path: "/b".to_string(), backup_path: "/b.bak".to_string() },
            UndoAction::RestoreFile { path: "/a".to_string(), backup_path: "/a.bak".to_string() },
        ]
    );
}

#[test]
fn file_restore_brings_back_the_original_bytes() {
    // an in-memory stand-in for the executor: (path, contents) pairs,
    // a restore moving the backup's bytes onto the original path
    let (tracker, _) = StateTracker::new(".state.json".to_string(), None);
    let change = Change::FileModified {
        path: "/etc/conf".to_string(),
        backup_path: "/etc/conf.bak".to_string(),
    };
    let mut files: Vec<(String, String)> = vec![
        ("/etc/conf".to_string(), "Y".to_string()),
        ("/etc/conf.bak".to_string(), "X".to_string()),
    ];
    match tracker.undo_change(&change) {
        UndoAction::RestoreFile { path, backup_path } => {
            let bytes = files
                .iter()
                .find(|f| f.0 == backup_path)
                .map(|f| f.1.clone())
                .unwrap();
            files.retain(|f| f.0 != backup_path && f.0 != path);
            files.push((path, bytes));
        },
        other => panic!("unexpected action {:?}", other),
    }
    let current = files.iter().find(|f| f.0 == "/etc/conf").unwrap();
    assert_eq!(current.1, "X");
    assert!(files.iter().all(|f| f.0 != "/etc/conf.bak"));
}

#[test]
fn undo_actions_match_their_changes() {
    let (tracker, _) = StateTracker::new(".state.json".to_string(), None);
    let undo = tracker.undo_change(&Change::KernelParamAdded {
        parameter: "iommu=pt".to_string(),
        bootloader: "grub".to_string(),
    });
    assert_eq!(
        undo,
        UndoAction::ManualParamRemove {
            parameter: "iommu=pt".to_string(),
            bootloader: "grub".to_string(),
        }
    );
    let undo2 = tracker.undo_change(&Change::DriverBound {
        device_bdf: "0000:01:00.0".to_string(),
        new_driver: "vfio-pci".to_string(),
        original_driver: Some("nvidia".to_string()),
    });
    assert_eq!(
        undo2,
        UndoAction::RebindDevice {
            device_bdf: "0000:01:00.0".to_string(),
            original_driver: Some("nvidia".to_string()),
        }
    );
}

#[test]
fn rollback_outcome_aggregates_errors() {
    assert_eq!(rollback_outcome(Vec::new()), Ok(()));
    let errs = vec!["one failed".to_string(), "two failed".to_string()];
    assert_eq!(
        rollback_outcome(errs.clone()),
        Err(VfioError::PartialFailure(errs))
    );
}

#[test]
fn clear_state_empties_the_log() {
    let (mut tracker, _) = StateTracker::new(".state.json".to_string(), None);
    tracker.record_change(Change::ModuleLoaded {
        name: "vfio".to_string(),
        config_path: "/etc/modules-load.d/vfio-pci-load.conf".to_string(),
        backup_path: None,
    });
    let doc = tracker.clear_state();
    assert!(tracker.changes.is_empty());
    assert_eq!(doc, "[]");
}

#[test]
fn cleanup_script_reverts_one_file_change() {
    let (mut tracker, _) = StateTracker::new(".state.json".to_string(), None);
    tracker.record_change(Change::FileModified {
        path: "/etc/default/grub".to_string(),
        backup_path: "/etc/default/grub.bak".to_string(),
    });
    let script = tracker.generate_cleanup_script();
    let expected = ("#!/bin/bash\n".to_string() + "# Cleanup script: reverts the recorded changes, newest first.\n" + "# Run with elevated privileges; steps tolerate an already-absent backup.\n\n" + "set -e # Exit on error\n\n" + "# Restore file /etc/default/grub\n" + "if [ -f \"/etc/default/grub.bak\" ]; then\n" + "  echo \"Restoring backup /etc/default/grub.bak to /etc/default/grub\"\n" + "  cp -f \"/etc/default/grub.bak\" \"/etc/default/grub\" && rm -f \"/etc/default/grub.bak\" || echo \"Error restoring file\"\n" + "else\n" + "  echo \"Backup file /etc/default/grub.bak not found, cannot restore\"\n" + "fi\n\n" + "echo 'Cleanup script finished.'\n");
    assert_eq!(script, expected);
}

#[test]
fn cleanup_script_orders_blocks_newest_first() {
    let (mut tracker, _) = StateTracker::new(".state.json".to_string(), None);
    tracker.record_change(Change::KernelParamAdded {
        parameter: "iommu=pt".to_string(),
        bootloader: "grub".to_string(),
    });
    tracker.record_change(Change::DriverBound {
        device_bdf: "0000:01:00.0".to_string(),
        new_driver: "vfio-pci".to_string(),
        original_driver: Some("nvidia".to_string()),
    });
    let script = tracker.generate_cleanup_script();
    let rebind = script.find("# Rebind device 0000:01:00.0").unwrap();
    let manual = script.find("# Remove kernel parameter 'iommu=pt'").unwrap();
    assert!(rebind < manual);
    // the sysfs device directory spells the BDF with slashes
    assert!(script.contains("/sys/bus/pci/devices/0000/01/00.0/driver_override"));
}
