//! System detection, the VFIO manager's plans, and GPU classification.

use exliar_vfio::system::{SystemInfo, SystemProbe, BootloaderType, CpuVendor, InitSystem,
    InitramfsSystem, DistroFamily, parse_kernel_version, detect_bootloader, detect_cpu_vendor,
    check_virtualization_support, detect_init_system, detect_initramfs_system, detect_secure_boot,
    detect_distribution, determine_distro_family, detect_kernel_version};
use exliar_vfio::vfio::{VfioManager, BindProbe, UnbindProbe};
use exliar_vfio::gpu::{PciDevice, GpuVendor, detect_gpus, is_gpu_device, pci_to_gpu_device,
    detect_gpu_vendor, detect_gpu_capabilities, is_integrated_gpu, detect_vram_size,
    get_pci_devices, class_label};
use exliar_vfio::bootloader::{SystemdBootConfig, KernelstubConfig, BootloaderManager,
    get_bootloader_manager, batch_changed};
use exliar_vfio::errors::{VfioError, command_result};
use exliar_vfio::utils::{backup_path_for, create_timestamped_backup, run_command};

fn probe_for(cpuinfo: &str, os_release: &str) -> SystemProbe {
    SystemProbe {
        grub_default_exists: true,
        loader_conf_exists: false,
        os_release: Some(os_release.to_string()),
        uname_release: Some("6.5.7-arch1-1".to_string()),
        proc_version: None,
        cpuinfo: Some(cpuinfo.to_string()),
        systemd_run_exists: true,
        openrc_exists: false,
        inittab_exists: false,
        mkinitcpio_exists: true,
        dracut_exists: false,
        booster_exists: false,
        initramfs_tools_exists: false,
        mokutil_stdout: None,
        secure_boot_efivar: Some(vec![0, 0, 0, 0, 1]),
    }
}

#[test]
fn kernel_version_parses_components() {
    let v = parse_kernel_version("6.5.7-arch1-1");
    assert_eq!(v.major, 6);
    assert_eq!(v.minor, 5);
    assert_eq!(v.patch, Some(7));
    assert_eq!(v.full_version, "6.5.7-arch1-1");
    let w = parse_kernel_version("5.15");
    assert_eq!((w.major, w.minor, w.patch), (5, 15, None));
    let odd = parse_kernel_version("not.a.version");
    assert_eq!((odd.major, odd.minor, odd.patch), (0, 0, None));
}

#[test]
fn kernel_version_falls_back_to_proc() {
    let proc_version = "Linux version 6.1.0-x (build)".to_string();
    let v = detect_kernel_version(None, Some(&proc_version));
    assert_eq!((v.major, v.minor, v.patch), (6, 1, Some(0)));
    let unknown = detect_kernel_version(None, None);
    assert_eq!(unknown.full_version, "unknown");
}

#[test]
fn bootloader_markers_decide_the_family() {
    assert_eq!(detect_bootloader(true, false, None), BootloaderType::Grub);
    assert_eq!(detect_bootloader(false, true, None), BootloaderType::SystemdBoot);
    let pop = "NAME=\"Pop!_OS\"\nID=pop\n".to_string();
    assert_eq!(detect_bootloader(false, true, Some(&pop)), BootloaderType::PopOsKernelstub);
    assert_eq!(detect_bootloader(false, false, None), BootloaderType::Unknown);
}

#[test]
fn cpu_vendor_and_virtualization_read_cpuinfo() {
    let amd = "processor\t: 0\nvendor_id\t: AuthenticAMD\nflags\t\t: fpu svm sse\n".to_string();
    assert_eq!(detect_cpu_vendor(Some(&amd)), CpuVendor::AMD);
    assert!(check_virtualization_support(Some(&amd)));
    let intel = "vendor_id\t: GenuineIntel\nflags\t\t: fpu vmx sse\n".to_string();
    assert_eq!(detect_cpu_vendor(Some(&intel)), CpuVendor::Intel);
    assert!(check_virtualization_support(Some(&intel)));
    let other = "vendor_id\t: SomebodyElse\nflags\t\t: fpu sse\n".to_string();
    assert_eq!(detect_cpu_vendor(Some(&other)), CpuVendor::Other("SomebodyElse".to_string()));
    assert!(!check_virtualization_support(Some(&other)));
    assert_eq!(detect_cpu_vendor(None), CpuVendor::Other("Unknown".to_string()));
}

#[test]
fn init_and_initramfs_follow_the_markers() {
    assert_eq!(detect_init_system(true, true, true), InitSystem::Systemd);
    assert_eq!(detect_init_system(false, true, false), InitSystem::OpenRC);
    assert_eq!(detect_init_system(false, false, true), InitSystem::SysVInit);
    assert_eq!(detect_init_system(false, false, false), InitSystem::Unknown);
    assert_eq!(detect_initramfs_system(true, false, false, false), InitramfsSystem::Mkinitcpio);
    assert_eq!(detect_initramfs_system(false, true, false, false), InitramfsSystem::Dracut);
    assert_eq!(detect_initramfs_system(false, false, true, false), InitramfsSystem::Booster);
    assert_eq!(detect_initramfs_system(false, false, false, true), InitramfsSystem::Debian);
    assert_eq!(detect_initramfs_system(false, false, false, false), InitramfsSystem::Unknown);
}

#[test]
fn secure_boot_prefers_mokutil_then_the_efi_variable() {
    let on = "SecureBoot enabled\n".to_string();
    assert_eq!(detect_secure_boot(Some(&on), None), Some(true));
    let off = "SecureBoot disabled\n".to_string();
    assert_eq!(detect_secure_boot(Some(&off), None), Some(false));
    let var_on = vec![0u8, 0, 0, 0, 1];
    assert_eq!(detect_secure_boot(None, Some(&var_on)), Some(true));
    let var_off = vec![0u8, 0, 0, 0, 0];
    assert_eq!(detect_secure_boot(None, Some(&var_off)), Some(false));
    let too_short = vec![1u8];
    assert_eq!(detect_secure_boot(None, Some(&too_short)), None);
    assert_eq!(detect_secure_boot(None, None), None);
}

#[test]
fn distribution_reads_os_release_fields() {
    let osr = "NAME=\"Arch Linux\"\nVERSION=\"rolling\"\nID=arch\n".to_string();
    let d = detect_distribution(Some(&osr)).unwrap();
    assert_eq!(d.name, "Arch Linux");
    assert_eq!(d.version, "rolling");
    assert_eq!(d.id, "arch");
    assert_eq!(d.family, Some(DistroFamily::Arch));
    assert!(detect_distribution(None).is_none());
    let empty = "VERSION=1\n".to_string();
    assert!(detect_distribution(Some(&empty)).is_none());
}

#[test]
fn distro_family_tries_id_like_first() {
    assert_eq!(determine_distro_family("neon", "ubuntu debian"), Some(DistroFamily::Debian));
    assert_eq!(determine_distro_family("rocky", ""), Some(DistroFamily::Fedora));
    assert_eq!(determine_distro_family("gentoo", ""), Some(DistroFamily::Gentoo));
    assert_eq!(determine_distro_family("leap", ""), Some(DistroFamily::Suse));
    assert_eq!(
        determine_distro_family("homegrown", ""),
        Some(DistroFamily::Other("homegrown".to_string()))
    );
    assert_eq!(determine_distro_family("", ""), None);
}

#[test]
fn summary_lists_every_detected_property() {
    let probe = probe_for(
        "vendor_id\t: AuthenticAMD\nflags\t\t: fpu svm sse\n",
        "NAME=\"Arch Linux\"\nVERSION=\"rolling\"\nID=arch\n",
    );
    let info = SystemInfo::detect(&probe);
    let text = info.summary();
    let expected = ("Kernel: 6.5.7-arch1-1\n".to_string() + "Bootloader: Grub\n" + "CPU Vendor: AMD\n" + "Virtualization: Enabled\n" + "Distribution: Arch Linux rolling (Arch-based)\n" + "Init System: Systemd\n" + "Initramfs System: Mkinitcpio\n" + "Secure Boot: Enabled\n");
    assert_eq!(text, expected);
}

fn sample_device(class: &str, vendor_id: &str, vendor_name: &str, device_name: &str) -> PciDevice {
    PciDevice {
        bdf: "01:00.0".to_string(),
        vendor_id: vendor_id.to_string(),
        device_id: "67df".to_string(),
        class: class.to_string(),
        vendor_name: vendor_name.to_string(),
        device_name: device_name.to_string(),
        driver: Some("amdgpu".to_string()),
        sysfs_path: "/sys/bus/pci/devices/0000:01:00.0".to_string(),
    }
}

#[test]
fn gpu_classification_covers_the_vendors() {
    let amd = sample_device("VGA compatible controller", "1002", "AMD", "Radeon RX 580");
    assert!(is_gpu_device(&amd));
    assert_eq!(detect_gpu_vendor(&amd), GpuVendor::AMD);
    let caps = detect_gpu_capabilities(&amd, &GpuVendor::AMD);
    // 0x67df sits below the reset-bug cutoff
    assert!(caps.has_reset_bug);
    assert!(!caps.supports_reset);
    assert!(caps.supports_vbios_loading);
    assert!(!is_integrated_gpu(&amd, &GpuVendor::AMD));
    assert_eq!(detect_vram_size(&amd), None);

    let mut modern = sample_device("Display controller", "1002", "AMD", "Radeon RX 7900");
    modern.device_id = "744c".to_string();
    let caps2 = detect_gpu_capabilities(&modern, &GpuVendor::AMD);
    assert!(!caps2.has_reset_bug);
    assert!(caps2.supports_reset);

    let nvidia = sample_device("VGA compatible controller", "10de", "NVIDIA", "GeForce RTX 3080");
    assert_eq!(detect_gpu_vendor(&nvidia), GpuVendor::NVIDIA);
    let caps3 = detect_gpu_capabilities(&nvidia, &GpuVendor::NVIDIA);
    assert!(caps3.needs_code_43_workaround);

    let intel = sample_device("VGA compatible controller", "8086", "Intel", "UHD Graphics 630");
    assert_eq!(detect_gpu_vendor(&intel), GpuVendor::Intel);
    let caps4 = detect_gpu_capabilities(&intel, &GpuVendor::Intel);
    assert!(caps4.supports_gvt);
    assert!(is_integrated_gpu(&intel, &GpuVendor::Intel));

    let by_name = sample_device("VGA compatible controller", "ffff", "nVidia Corp", "Thing");
    assert_eq!(detect_gpu_vendor(&by_name), GpuVendor::NVIDIA);
    assert_eq!(GpuVendor::NVIDIA.label(), "NVIDIA");
}

#[test]
fn gpus_are_filtered_from_pci_devices() {
    let gpu = sample_device("VGA compatible controller", "1002", "AMD", "Radeon RX 580");
    let nic = sample_device("Ethernet controller", "8086", "Intel", "I225-V");
    let gpus = detect_gpus(&vec![nic, gpu.clone()]);
    assert_eq!(gpus.len(), 1);
    assert_eq!(gpus[0].bdf(), "01:00.0");
    assert_eq!(gpus[0].model_name(), "Radeon RX 580");
    assert_eq!(*gpus[0].vendor(), GpuVendor::AMD);
    let g = pci_to_gpu_device(&gpu);
    assert_eq!(g.driver, Some("amdgpu".to_string()));
}

fn manager() -> VfioManager {
    let probe = probe_for("vendor_id\t: AuthenticAMD\nflags\t\t: fpu svm sse\n", "ID=arch\nNAME=\"A\"\n");
    VfioManager::new(SystemInfo::detect(&probe))
}

#[test]
fn binder_dry_run_writes_nothing_even_without_the_bind_file() {
    let m = manager();
    let dev = sample_device("VGA compatible controller", "1002", "AMD", "Radeon RX 580");
    let probe = BindProbe { unbind_exists: true, override_exists: true, bind_exists: false };
    let plan = m.bind_device(&dev, true, &probe).unwrap();
    assert!(plan.writes.is_empty());
}

#[test]
fn binder_plans_the_three_sysfs_writes() {
    let m = manager();
    let dev = sample_device("VGA compatible controller", "1002", "AMD", "Radeon RX 580");
    let probe = BindProbe { unbind_exists: true, override_exists: true, bind_exists: true };
    let plan = m.bind_device(&dev, false, &probe).unwrap();
    assert_eq!(plan.writes.len(), 3);
    assert_eq!(plan.writes[0].path, "/sys/bus/pci/devices/0000:01:00.0/driver/unbind");
    assert_eq!(plan.writes[0].data, "01:00.0");
    assert_eq!(plan.writes[1].path, "/sys/bus/pci/devices/0000:01:00.0/driver_override");
    assert_eq!(plan.writes[1].data, "vfio-pci");
    assert_eq!(plan.writes[2].path, "/sys/bus/pci/drivers/vfio-pci/bind");
    assert_eq!(plan.writes[2].data, "01:00.0");
}

#[test]
fn binder_fails_without_the_bind_file() {
    let m = manager();
    let dev = sample_device("VGA compatible controller", "1002", "AMD", "Radeon RX 580");
    let probe = BindProbe { unbind_exists: false, override_exists: false, bind_exists: false };
    assert_eq!(m.bind_device(&dev, false, &probe).unwrap_err(), VfioError::NotFound);
}

#[test]
fn unbinder_requires_the_reprobe_file() {
    let m = manager();
    let dev = sample_device("VGA compatible controller", "1002", "AMD", "Radeon RX 580");
    let missing = UnbindProbe { vfio_unbind_exists: true, override_exists: true, probe_exists: false };
    assert_eq!(m.unbind_device(&dev, false, &missing).unwrap_err(), VfioError::NotFound);
    let there = UnbindProbe { vfio_unbind_exists: true, override_exists: true, probe_exists: true };
    let plan = m.unbind_device(&dev, false, &there).unwrap();
    assert_eq!(plan.writes.len(), 3);
    assert_eq!(plan.writes[0].path, "/sys/bus/pci/drivers/vfio-pci/unbind");
    assert_eq!(plan.writes[1].data, "");
    assert_eq!(plan.writes[2].path, "/sys/bus/pci/drivers_probe");
    let dry = m.unbind_device(&dev, true, &missing).unwrap();
    assert!(dry.writes.is_empty());
}

#[test]
fn modprobe_plan_writes_both_files_once() {
    let m = manager();
    let ids = vec!["1002:67df".to_string(), "1002:aaf0".to_string()];
    let plan = m.configure_modprobe(&ids, false, None, None);
    let vfio_conf = plan.vfio_conf.unwrap();
    let expected = ("options vfio-pci ids=1002:67df,1002:aaf0 disable_vga=1 disable_idle_d3=1\n".to_string() + "softdep drm pre: vfio-pci\n" + "softdep amdgpu pre: vfio-pci\n" + "softdep nouveau pre: vfio-pci\n" + "softdep radeon pre: vfio-pci\n" + "softdep nvidia pre: vfio-pci\n" + "softdep i915 pre: vfio-pci\n");
    assert_eq!(vfio_conf, expected);
    assert_eq!(plan.modules_load.unwrap(), "vfio\nvfio_iommu_type1\nvfio_pci\nvfio_virqfd\n");
    // a second pass over what was written changes nothing
    let vc = vfio_conf.clone();
    let ml = "vfio\nvfio_iommu_type1\nvfio_pci\nvfio_virqfd\n".to_string();
    let again = m.configure_modprobe(&ids, false, Some(&vc), Some(&ml));
    assert!(again.vfio_conf.is_none());
    assert!(again.modules_load.is_none());
}

#[test]
fn modprobe_replaces_and_comments_option_lines() {
    let m = manager();
    let ids = vec!["10de:1eb1".to_string()];
    let current = ("# keep me\n".to_string() + "options vfio-pci ids=old\n" + "options vfio-pci ids=older\n" + "softdep drm pre: vfio-pci\n").to_string();
    let plan = m.configure_modprobe(&ids, false, Some(&current), None);
    let out = plan.vfio_conf.unwrap();
    assert!(out.starts_with("# keep me\n"));
    assert!(out.contains("options vfio-pci ids=10de:1eb1 disable_vga=1 disable_idle_d3=1\n"));
    assert!(out.contains("# options vfio-pci ids=older\n"));
    // the present softdep is not duplicated
    assert_eq!(out.matches("softdep drm pre: vfio-pci").count(), 1);
}

#[test]
fn modprobe_dry_run_plans_no_writes() {
    let m = manager();
    let plan = m.configure_modprobe(&vec!["1002:67df".to_string()], true, None, None);
    assert!(plan.vfio_conf.is_none());
    assert!(plan.modules_load.is_none());
}

#[test]
fn initramfs_command_follows_the_machinery() {
    let m = manager();
    let plan = m.update_initramfs(false);
    assert_eq!(plan.command.unwrap(), vec!["mkinitcpio".to_string(), "-P".to_string()]);
    assert!(plan.execute);
    let dry = m.update_initramfs(true);
    assert!(!dry.execute);
}

#[test]
fn per_entry_backend_says_not_supported() {
    let sdb = SystemdBootConfig::new();
    let params = vec!["iommu=pt".to_string()];
    assert_eq!(sdb.add_parameters(&params, false).unwrap_err(), VfioError::Unsupported);
    assert_eq!(sdb.remove_parameters(&params, true).unwrap_err(), VfioError::Unsupported);
    assert!(sdb.get_config_parameters().is_empty());
    assert!(sdb.create_backup().is_empty());
}

#[test]
fn kernelstub_builds_one_invocation_per_parameter() {
    let ks = KernelstubConfig::new();
    let params = vec!["iommu=pt".to_string(), "amd_iommu=on".to_string()];
    let plans = ks.add_parameters(&params, false);
    assert_eq!(plans.len(), 2);
    assert_eq!(
        plans[0].command.clone().unwrap(),
        vec!["sudo".to_string(), "kernelstub".to_string(), "-a".to_string(), "iommu=pt".to_string()]
    );
    assert!(plans[0].execute);
    let removals = ks.remove_parameters(&params, true);
    assert_eq!(
        removals[1].command.clone().unwrap(),
        vec![
            "sudo".to_string(),
            "kernelstub".to_string(),
            "-d".to_string(),
            "amd_iommu=on".to_string(),
        ]
    );
    assert!(!removals[1].execute);
    assert!(batch_changed(&vec![false, true]));
    assert!(!batch_changed(&vec![false, false]));
    assert!(!batch_changed(&Vec::new()));
}

#[test]
fn kernelstub_parses_its_print_output() {
    let ks = KernelstubConfig::new();
    let stdout = "Kernel Image Path: /boot\nKernel Boot Options: quiet loglevel=0 splash\n";
    let params = ks.get_config_parameters(stdout);
    assert_eq!(
        params,
        vec!["quiet".to_string(), "loglevel=0".to_string(), "splash".to_string()]
    );
    assert!(ks.get_config_parameters("nothing here").is_empty());
}

#[test]
fn manager_dispatch_covers_known_families() {
    assert!(matches!(
        get_bootloader_manager(&BootloaderType::Grub),
        Some(BootloaderManager::Grub(_))
    ));
    assert!(matches!(
        get_bootloader_manager(&BootloaderType::SystemdBoot),
        Some(BootloaderManager::SystemdBoot(_))
    ));
    assert!(matches!(
        get_bootloader_manager(&BootloaderType::PopOsKernelstub),
        Some(BootloaderManager::Kernelstub(_))
    ));
    assert!(get_bootloader_manager(&BootloaderType::Unknown).is_none());
    assert!(get_bootloader_manager(&BootloaderType::Other("x".to_string())).is_none());
}

#[test]
fn command_outcomes_map_to_the_taxonomy() {
    assert_eq!(command_result(true, Some(0)), Ok(()));
    assert_eq!(command_result(false, Some(2)), Err(VfioError::CommandFailure(Some(2))));
    assert_eq!(command_result(false, None), Err(VfioError::CommandFailure(None)));
}

#[test]
fn backup_names_extend_the_file_name() {
    assert_eq!(
        backup_path_for("/etc/default/grub", "20240101_000000"),
        "/etc/default/grub.backup_20240101_000000"
    );
    let (same, copy) = create_timestamped_backup("/etc/default/grub", false);
    assert_eq!(same, "/etc/default/grub");
    assert!(!copy);
    // the stamped name comes from the clock; only its shape is fixed
    let (named, copy2) = create_timestamped_backup("/etc/default/grub", true);
    assert!(copy2);
    assert!(named.starts_with("/etc/default/grub.backup_"));
}

#[test]
fn command_splitting_refuses_the_empty_command() {
    assert_eq!(run_command("").unwrap_err(), "Empty command");
    assert_eq!(run_command("   ").unwrap_err(), "Empty command");
    assert_eq!(
        run_command("update-initramfs -u -k all").unwrap(),
        vec!["update-initramfs".to_string(), "-u".to_string(), "-k".to_string(), "all".to_string()]
    );
}

#[test]
fn pci_listing_parses_into_sections() {
    let listing = "Slot:\t01:00.0\nClass:\tVGA compatible controller\nVendor:\tNVIDIA Corporation\nDevice:\tGA102\n\nSlot:\t02:00.0\nClass:\tEthernet controller\nVendor:\tIntel Corporation\nDevice:\tI225-V\n";
    let devices = get_pci_devices(listing);
    assert_eq!(devices.len(), 2);
    assert_eq!(devices[0].bdf, "01:00.0");
    assert_eq!(devices[0].class, "VGA compatible controller");
    assert_eq!(devices[0].vendor_name, "NVIDIA Corporation");
    assert_eq!(devices[0].device_name, "GA102");
    assert_eq!(devices[0].vendor_id, "10de");
    assert_eq!(devices[0].device_id, "0000");
    assert_eq!(devices[0].sysfs_path, "/sys/bus/pci/devices/01/00.0");
    assert!(devices[0].driver.is_none());
    assert_eq!(devices[1].vendor_id, "8086");
    // the classifier keeps exactly the GPU
    let gpus = detect_gpus(&devices);
    assert_eq!(gpus.len(), 1);
    assert_eq!(*gpus[0].vendor(), GpuVendor::NVIDIA);
    // a sectionless or slotless listing names no device
    assert!(get_pci_devices("").is_empty());
    assert!(get_pci_devices("Class:\tVGA compatible controller\n").is_empty());
}

#[test]
fn class_codes_get_their_display_labels() {
    assert_eq!(class_label("030000"), "VGA compatible controller");
    assert_eq!(class_label("038000"), "Display controller");
    assert_eq!(class_label("030200"), "3D controller");
    assert_eq!(class_label("020000"), "020000");
}
