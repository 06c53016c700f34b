//! The parameter reconciler and the single-file backend, end to end.

use exliar_vfio::grub::GrubConfig;
use exliar_vfio::errors::VfioError;

fn params(list: &[&str]) -> Vec<String> {
    list.iter().map(|s| s.to_string()).collect()
}

#[test]
fn add_changes_then_is_idempotent() {
    let cfg = GrubConfig::new();
    let content = "GRUB_CMDLINE_LINUX_DEFAULT=\"quiet\"\n".to_string();
    let first = cfg
        .add_parameters(Some(&content), &params(&["iommu=pt"]), false)
        .unwrap();
    assert!(first.changed);
    let written = first.new_content.unwrap();
    let second = cfg
        .add_parameters(Some(&written), &params(&["iommu=pt"]), false)
        .unwrap();
    assert!(!second.changed);
    assert!(second.new_content.is_none());
}

#[test]
fn add_replaces_value_under_same_key() {
    let cfg = GrubConfig::new();
    let content = "GRUB_CMDLINE_LINUX_DEFAULT=\"iommu=on\"\n".to_string();
    let edit = cfg
        .add_parameters(Some(&content), &params(&["iommu=pt"]), false)
        .unwrap();
    assert!(edit.changed);
    let written = edit.new_content.unwrap();
    assert_eq!(written, "GRUB_CMDLINE_LINUX_DEFAULT=\"iommu=pt\"\n");
    let now = cfg.get_config_parameters(Some(&written));
    assert_eq!(now, vec!["iommu=pt".to_string()]);
}

#[test]
fn scenario_add_then_remove_keeps_other_lines() {
    let cfg = GrubConfig::new();
    let content = "# comment\nGRUB_CMDLINE_LINUX_DEFAULT=\"quiet splash\"\nGRUB_TIMEOUT=5\n"
        .to_string();
    let edit = cfg
        .add_parameters(Some(&content), &params(&["iommu=on", "amd_iommu=on"]), false)
        .unwrap();
    assert!(edit.changed);
    let written = edit.new_content.unwrap();
    assert_eq!(
        written,
        "# comment\nGRUB_CMDLINE_LINUX_DEFAULT=\"amd_iommu=on iommu=on quiet splash\"\nGRUB_TIMEOUT=5\n"
    );
    let removed = cfg
        .remove_parameters(Some(&written), &params(&["quiet"]), false)
        .unwrap();
    assert!(removed.changed);
    let after = removed.new_content.unwrap();
    assert_eq!(
        after,
        "# comment\nGRUB_CMDLINE_LINUX_DEFAULT=\"amd_iommu=on iommu=on splash\"\nGRUB_TIMEOUT=5\n"
    );
}

#[test]
fn dry_run_reports_without_producing_content() {
    let cfg = GrubConfig::new();
    let content = "GRUB_CMDLINE_LINUX_DEFAULT=\"quiet\"\n".to_string();
    let edit = cfg
        .add_parameters(Some(&content), &params(&["iommu=pt"]), true)
        .unwrap();
    assert!(edit.changed);
    assert!(edit.new_content.is_none());
}

#[test]
fn write_to_missing_file_is_not_found() {
    let cfg = GrubConfig::new();
    let err = cfg
        .add_parameters(None, &params(&["iommu=pt"]), false)
        .unwrap_err();
    assert_eq!(err, VfioError::NotFound);
}

#[test]
fn missing_file_reads_as_no_parameters() {
    let cfg = GrubConfig::new();
    let now = cfg.get_config_parameters(None);
    assert!(now.is_empty());
}

#[test]
fn remove_of_absent_parameter_changes_nothing() {
    let cfg = GrubConfig::new();
    let content = "GRUB_CMDLINE_LINUX_DEFAULT=\"quiet\"\n".to_string();
    let edit = cfg
        .remove_parameters(Some(&content), &params(&["iommu"]), false)
        .unwrap();
    assert!(!edit.changed);
    assert!(edit.new_content.is_none());
}

#[test]
fn remove_by_key_drops_valued_parameter() {
    let cfg = GrubConfig::new();
    let content = "GRUB_CMDLINE_LINUX_DEFAULT=\"iommu=pt quiet\"\n".to_string();
    let edit = cfg
        .remove_parameters(Some(&content), &params(&["iommu"]), false)
        .unwrap();
    assert!(edit.changed);
    assert_eq!(
        edit.new_content.unwrap(),
        "GRUB_CMDLINE_LINUX_DEFAULT=\"quiet\"\n"
    );
}

#[test]
fn single_quoted_assignment_is_tolerated() {
    let cfg = GrubConfig::new();
    let content = "GRUB_CMDLINE_LINUX_DEFAULT='quiet splash'\n".to_string();
    let now = cfg.get_config_parameters(Some(&content));
    assert_eq!(now, vec!["quiet".to_string(), "splash".to_string()]);
}

#[test]
fn unmatched_line_appends_fresh_assignment() {
    let cfg = GrubConfig::new();
    // an unterminated quote never matches the assignment grammar
    let content = "GRUB_CMDLINE_LINUX_DEFAULT=\"quiet\n".to_string();
    let edit = cfg
        .add_parameters(Some(&content), &params(&["iommu=pt"]), false)
        .unwrap();
    let written = edit.new_content.unwrap();
    assert!(written.starts_with(&content));
    assert!(written.ends_with("\nGRUB_CMDLINE_LINUX_DEFAULT=\"iommu=pt\"\n"));
}

#[test]
fn activation_with_no_tool_is_not_found() {
    let cfg = GrubConfig::new();
    let tools = exliar_vfio::grub::GrubTools {
        update_grub: false,
        grub2_mkconfig: false,
        fedora_cfg: false,
        grub2_cfg: false,
        grub_mkconfig: false,
    };
    assert_eq!(cfg.update_bootloader(&tools, false).unwrap_err(), VfioError::NotFound);
    assert_eq!(cfg.update_bootloader(&tools, true).unwrap_err(), VfioError::NotFound);
}

#[test]
fn activation_picks_the_present_tool() {
    let cfg = GrubConfig::new();
    let tools = exliar_vfio::grub::GrubTools {
        update_grub: true,
        grub2_mkconfig: false,
        fedora_cfg: false,
        grub2_cfg: false,
        grub_mkconfig: false,
    };
    let plan = cfg.update_bootloader(&tools, false).unwrap();
    assert_eq!(plan.command.unwrap(), vec!["sudo".to_string(), "update-grub".to_string()]);
    assert!(plan.execute);
    let dry = cfg.update_bootloader(&tools, true).unwrap();
    assert!(!dry.execute);
}

#[test]
fn activation_grub2_without_known_output_warns_only() {
    let cfg = GrubConfig::new();
    let tools = exliar_vfio::grub::GrubTools {
        update_grub: false,
        grub2_mkconfig: true,
        fedora_cfg: false,
        grub2_cfg: false,
        grub_mkconfig: false,
    };
    let plan = cfg.update_bootloader(&tools, false).unwrap();
    assert!(plan.command.is_none());
    assert!(!plan.execute);
}
