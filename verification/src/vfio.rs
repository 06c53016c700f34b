//! VFIO configuration and device binding: the modprobe configuration
//! rewrite, the initramfs regeneration command, and the sysfs write
//! sequences that bind a device to, or release it from, the vfio-pci
//! driver.
//!
//! Nothing here touches the machine: the functions compute the file
//! contents, commands and control-file writes, and the caller performs
//! them; under dry-run there is nothing to perform.

use vstd::prelude::*;
use vstd::string::*;
use crate::strutil::{chars_vec, chars_to_string, append_chars, append_str, join_with, join_chars,
    lines_of, lines_of_chars, match_at, match_at_x, spec_trim, trim_chars, strings_to_tokens};
use crate::system::{SystemInfo, InitramfsSystem};
use crate::gpu::PciDevice;
use crate::grub::UpdatePlan;
use crate::errors::VfioError;

verus! {

/// Drives VFIO configuration and device binding for one detected system.
pub struct VfioManager {
    pub system_info: SystemInfo,
}

/// The canonical `options vfio-pci` line for the given device ids.
pub open spec fn spec_options_line(ids: Seq<Seq<char>>) -> Seq<char> {
    "options vfio-pci ids="@ + join_with(ids, ',') + " disable_vga=1 disable_idle_d3=1"@
}

/// The six soft-dependency lines that load vfio-pci before the
/// graphics drivers.
pub open spec fn spec_softdeps() -> Seq<Seq<char>> {
    seq![
        "softdep drm pre: vfio-pci"@,
        "softdep amdgpu pre: vfio-pci"@,
        "softdep nouveau pre: vfio-pci"@,
        "softdep radeon pre: vfio-pci"@,
        "softdep nvidia pre: vfio-pci"@,
        "softdep i915 pre: vfio-pci"@,
    ]
}

/// How one existing configuration line is carried over: comments and
/// blanks stay, the first `options vfio-pci` line is replaced, later
/// ones are commented out, everything else stays.
pub open spec fn modprobe_line(line: Seq<char>, found: bool, opts: Seq<char>) -> (Seq<char>, bool) {
    let stripped = spec_trim(line);
    if stripped.len() == 0 || stripped[0] == '#' {
        (line, found)
    } else if match_at(stripped, 0, "options vfio-pci"@) {
        if !found {
            (opts, true)
        } else {
            ("# "@ + line, found)
        }
    } else {
        (line, found)
    }
}

/// The carried-over lines and whether an options line was replaced.
pub open spec fn modprobe_lines(
    lines: Seq<Seq<char>>,
    i: int,
    found: bool,
    opts: Seq<char>,
) -> (Seq<Seq<char>>, bool)
    decreases lines.len() - i,
{
    if 0 <= i < lines.len() {
        let (nl, f2) = modprobe_line(lines[i], found, opts);
        let (rest, f3) = modprobe_lines(lines, i + 1, f2, opts);
        (seq![nl] + rest, f3)
    } else {
        (Seq::empty(), found)
    }
}

/// A soft-dependency line is already present, up to surrounding blanks.
pub open spec fn softdep_present(lines: Seq<Seq<char>>, sd: Seq<char>) -> bool {
    exists|i: int| 0 <= i < lines.len() && spec_trim(#[trigger] lines[i]) == sd
}

/// The missing soft-dependency lines, in canonical order.
pub open spec fn missing_softdeps(lines: Seq<Seq<char>>, k: int) -> Seq<Seq<char>>
    decreases spec_softdeps().len() - k,
{
    if 0 <= k < spec_softdeps().len() {
        let rest = missing_softdeps(lines, k + 1);
        if softdep_present(lines, spec_softdeps()[k]) {
            rest
        } else {
            seq![spec_softdeps()[k]] + rest
        }
    } else {
        Seq::empty()
    }
}

/// The rewritten `vfio.conf` text for the given ids: existing lines
/// carried over with the options line replaced (or appended when
/// absent), then any missing soft dependencies, with a final newline.
pub open spec fn spec_vfio_conf(current: Seq<char>, ids: Seq<Seq<char>>) -> Seq<char> {
    let opts = spec_options_line(ids);
    let lines = lines_of(current);
    let (kept, found) = modprobe_lines(lines, 0, false, opts);
    let with_opts = if found {
        kept
    } else {
        kept.push(opts)
    };
    let all = with_opts + missing_softdeps(lines, 0);
    join_with(all, '\n') + "\n"@
}

/// The fixed `modules-load.d` text that loads the VFIO modules early.
pub open spec fn spec_modules_load() -> Seq<char> {
    "vfio\nvfio_iommu_type1\nvfio_pci\nvfio_virqfd\n"@
}

/// The writes a modprobe configuration pass performs: the full new text
/// of each file when it must change, or nothing.
pub struct ModprobePlan {
    pub vfio_conf: Option<String>,
    pub modules_load: Option<String>,
}

impl VfioManager {
    pub fn new(system_info: SystemInfo) -> (r: VfioManager)
        ensures
            r.system_info == system_info,
    {
        VfioManager { system_info }
    }

    /// Computes the modprobe configuration for the device ids: the
    /// `vfio.conf` rewrite and the `modules-load.d` list, each to be
    /// written only when its text differs. Dry-run performs no writes,
    /// so the plan is empty.
    pub fn configure_modprobe(
        &self,
        device_ids: &Vec<String>,
        dry_run: bool,
        vfio_conf_current: Option<&String>,
        modules_load_current: Option<&String>,
    ) -> (r: ModprobePlan)
        ensures
            dry_run ==> r.vfio_conf is None && r.modules_load is None,
            !dry_run ==> {
                let cur = match vfio_conf_current {
                    Some(t) => t@,
                    None => Seq::<char>::empty(),
                };
                let newc = spec_vfio_conf(cur, device_ids@.map_values(|s: String| s@));
                match r.vfio_conf {
                    Some(t) => t@ == newc && newc != cur,
                    None => newc == cur,
                }
            },
            !dry_run ==> {
                let cur = match modules_load_current {
                    Some(t) => t@,
                    None => Seq::<char>::empty(),
                };
                match r.modules_load {
                    Some(t) => t@ == spec_modules_load() && spec_modules_load() != cur,
                    None => spec_modules_load() == cur,
                }
            },
    {
        if dry_run {
            return ModprobePlan { vfio_conf: None, modules_load: None };
        }
        let ids = strings_to_tokens(device_ids);
        let ghost idm = device_ids@.map_values(|s: String| s@);
        // the canonical options line
        let mut opts: Vec<char> = Vec::new();
        append_str(&mut opts, "options vfio-pci ids=");
        let joined = join_chars(&ids, ',');
        append_chars(&mut opts, &joined);
        append_str(&mut opts, " disable_vga=1 disable_idle_d3=1");
        proof {
            assert(opts@ =~= spec_options_line(idm));
        }
        // carry the current lines over
        let cur_chars = match vfio_conf_current {
            Some(t) => chars_vec(t.as_str()),
            None => Vec::new(),
        };
        proof {
            if vfio_conf_current is None {
                assert(cur_chars@ =~= Seq::<char>::empty());
            }
        }
        let lines = lines_of_chars(&cur_chars);
        let ghost lm = lines@.map_values(|t: Vec<char>| t@);
        let opts_pref = chars_vec("options vfio-pci");
        let mut kept: Vec<Vec<char>> = Vec::new();
        let mut found = false;
        let mut i: usize = 0;
        proof {
            assert(modprobe_lines(lm, lm.len() as int, found, opts@).0
                =~= Seq::<Seq<char>>::empty());
        }
        while i < lines.len()
            invariant
                i <= lines.len(),
                lm == lines@.map_values(|t: Vec<char>| t@),
                opts_pref@ == "options vfio-pci"@,
                ({
                    let (rest, f3) = modprobe_lines(lm, i as int, found, opts@);
                    modprobe_lines(lm, 0, false, opts@)
                        == (kept@.map_values(|t: Vec<char>| t@) + rest, f3)
                }),
            decreases lines.len() - i,
        {
            let ghost km = kept@.map_values(|t: Vec<char>| t@);
            let ghost step = modprobe_line(lm[i as int], found, opts@);
            proof {
                assert(lm[i as int] == lines@[i as int]@);
            }
            let t = trim_chars(&lines[i]);
            if t.len() == 0 || t[0] == '#' {
                kept.push(lines[i].clone());
            } else if match_at_x(&t, 0, &opts_pref) {
                if !found {
                    kept.push(opts.clone());
                    found = true;
                } else {
                    let mut cl: Vec<char> = Vec::new();
                    append_str(&mut cl, "# ");
                    append_chars(&mut cl, &lines[i]);
                    kept.push(cl);
                }
            } else {
                kept.push(lines[i].clone());
            }
            proof {
                assert(kept@.map_values(|t2: Vec<char>| t2@) =~= km.push(step.0));
                let (rest_old, f_old) = modprobe_lines(lm, i as int, step.1, opts@);
                assert(km.push(step.0) + modprobe_lines(lm, i + 1 as int, step.1, opts@).0
                    =~= km + (seq![step.0] + modprobe_lines(lm, i + 1 as int, step.1, opts@).0));
            }
            i = i + 1;
        }
        proof {
            let (kk, ff) = modprobe_lines(lm, 0, false, opts@);
            assert(modprobe_lines(lm, lm.len() as int, found, opts@).0
                =~= Seq::<Seq<char>>::empty());
            assert(kept@.map_values(|t2: Vec<char>| t2@) + Seq::<Seq<char>>::empty()
                =~= kept@.map_values(|t2: Vec<char>| t2@));
            assert(kk =~= kept@.map_values(|t2: Vec<char>| t2@));
            assert(ff == found);
        }
        let ghost km_before = kept@.map_values(|t2: Vec<char>| t2@);
        if !found {
            kept.push(opts.clone());
            proof {
                assert(kept@.map_values(|t2: Vec<char>| t2@) =~= km_before.push(opts@));
            }
        }
        // append the missing soft dependencies
        let sd_texts: [&str; 6] = [
            "softdep drm pre: vfio-pci",
            "softdep amdgpu pre: vfio-pci",
            "softdep nouveau pre: vfio-pci",
            "softdep radeon pre: vfio-pci",
            "softdep nvidia pre: vfio-pci",
            "softdep i915 pre: vfio-pci",
        ];
        let ghost with_opts = kept@.map_values(|t2: Vec<char>| t2@);
        let mut k: usize = 0;
        while k < 6
            invariant
                k <= 6,
                lm == lines@.map_values(|t: Vec<char>| t@),
                sd_texts@[0]@ == spec_softdeps()[0],
                sd_texts@[1]@ == spec_softdeps()[1],
                sd_texts@[2]@ == spec_softdeps()[2],
                sd_texts@[3]@ == spec_softdeps()[3],
                sd_texts@[4]@ == spec_softdeps()[4],
                sd_texts@[5]@ == spec_softdeps()[5],
                kept@.map_values(|t2: Vec<char>| t2@) + missing_softdeps(lm, k as int)
                    =~= with_opts + missing_softdeps(lm, 0),
            decreases 6 - k,
        {
            let ghost km = kept@.map_values(|t2: Vec<char>| t2@);
            let sd = chars_vec(sd_texts[k]);
            proof {
                assert(sd@ == spec_softdeps()[k as int]);
            }
            let mut present = false;
            let mut j: usize = 0;
            while j < lines.len()
                invariant
                    j <= lines.len(),
                    lm == lines@.map_values(|t: Vec<char>| t@),
                    sd@ == spec_softdeps()[k as int],
                    k < 6,
                    present == exists|x: int| 0 <= x < j && spec_trim(#[trigger] lm[x]) == sd@,
                decreases lines.len() - j,
            {
                proof {
                    assert(lm[j as int] == lines@[j as int]@);
                }
                let t = trim_chars(&lines[j]);
                if crate::params::eq_chars(&t, &sd) {
                    present = true;
                    proof {
                        assert(spec_trim(lm[j as int]) == sd@);
                    }
                }
                j = j + 1;
            }
            proof {
                assert(present == softdep_present(lm, sd@));
            }
            if !present {
                kept.push(sd);
                proof {
                    assert(kept@.map_values(|t2: Vec<char>| t2@) =~= km.push(sd@));
                    assert(km.push(sd@) + missing_softdeps(lm, k + 1 as int)
                        =~= km + (seq![sd@] + missing_softdeps(lm, k + 1 as int)));
                }
            }
            k = k + 1;
        }
        proof {
            assert(missing_softdeps(lm, 6) =~= Seq::<Seq<char>>::empty());
            assert(kept@.map_values(|t2: Vec<char>| t2@) + missing_softdeps(lm, 6)
                =~= kept@.map_values(|t2: Vec<char>| t2@));
        }
        let mut body = join_chars(&kept, '\n');
        body.push('\n');
        proof {
            reveal_strlit("\n");
            assert("\n"@ =~= seq!['\n']);
        }
        let ghost cur = match vfio_conf_current {
            Some(t) => t@,
            None => Seq::<char>::empty(),
        };
        proof {
            assert(body@ =~= spec_vfio_conf(cur, idm));
        }
        let new_vfio = chars_to_string(&body);
        let vfio_conf: Option<String> = match vfio_conf_current {
            Some(t) => {
                if new_vfio == *t {
                    None
                } else {
                    Some(new_vfio)
                }
            },
            None => {
                if new_vfio.as_str().unicode_len() == 0 {
                    None
                } else {
                    Some(new_vfio)
                }
            },
        };
        proof {
            if vfio_conf is None && vfio_conf_current is None {
                assert(spec_vfio_conf(cur, idm) =~= Seq::<char>::empty());
            }
        }
        // the modules-load list
        let ml = String::from_str("vfio\nvfio_iommu_type1\nvfio_pci\nvfio_virqfd\n");
        let modules_load: Option<String> = match modules_load_current {
            Some(t) => {
                if ml == *t {
                    None
                } else {
                    Some(ml)
                }
            },
            None => Some(ml),
        };
        proof {
            reveal_strlit("vfio\nvfio_iommu_type1\nvfio_pci\nvfio_virqfd\n");
            assert(spec_modules_load().len() > 0);
        }
        ModprobePlan { vfio_conf, modules_load }
    }

    /// Picks the initramfs regeneration command for the detected
    /// machinery; unknown machinery is tolerated with no command, and
    /// is no error.
    pub fn update_initramfs(&self, dry_run: bool) -> (r: UpdatePlan)
        ensures
            r.execute == (!dry_run && r.command is Some),
            match self.system_info.initramfs_system {
                InitramfsSystem::Mkinitcpio => r.command matches Some(c) && c@.map_values(
                    |s: String| s@,
                ) =~= seq!["mkinitcpio"@, "-P"@],
                InitramfsSystem::Dracut => r.command matches Some(c) && c@.map_values(
                    |s: String| s@,
                ) =~= seq!["dracut"@, "--force"@],
                InitramfsSystem::Debian => r.command matches Some(c) && c@.map_values(
                    |s: String| s@,
                ) =~= seq!["update-initramfs"@, "-u"@, "-k"@, "all"@],
                InitramfsSystem::Booster => r.command matches Some(c) && c@.map_values(
                    |s: String| s@,
                ) =~= seq!["booster"@, "build"@],
                _ => r.command is None,
            },
    {
        let command: Option<Vec<String>> = match &self.system_info.initramfs_system {
            InitramfsSystem::Mkinitcpio => {
                let mut c: Vec<String> = Vec::new();
                c.push(String::from_str("mkinitcpio"));
                c.push(String::from_str("-P"));
                proof {
                    assert(c@.map_values(|s: String| s@) =~= seq!["mkinitcpio"@, "-P"@]);
                }
                Some(c)
            },
            InitramfsSystem::Dracut => {
                let mut c: Vec<String> = Vec::new();
                c.push(String::from_str("dracut"));
                c.push(String::from_str("--force"));
                proof {
                    assert(c@.map_values(|s: String| s@) =~= seq!["dracut"@, "--force"@]);
                }
                Some(c)
            },
            InitramfsSystem::Debian => {
                let mut c: Vec<String> = Vec::new();
                c.push(String::from_str("update-initramfs"));
                c.push(String::from_str("-u"));
                c.push(String::from_str("-k"));
                c.push(String::from_str("all"));
                proof {
                    assert(c@.map_values(|s: String| s@) =~= seq![
                        "update-initramfs"@,
                        "-u"@,
                        "-k"@,
                        "all"@,
                    ]);
                }
                Some(c)
            },
            InitramfsSystem::Booster => {
                let mut c: Vec<String> = Vec::new();
                c.push(String::from_str("booster"));
                c.push(String::from_str("build"));
                proof {
                    assert(c@.map_values(|s: String| s@) =~= seq!["booster"@, "build"@]);
                }
                Some(c)
            },
            InitramfsSystem::Other(_) => None,
            InitramfsSystem::Unknown => None,
        };
        let execute = !dry_run && command.is_some();
        UpdatePlan { command, execute }
    }
}

/// One write to a sysfs control file.
#[derive(Debug)]
pub struct SysfsWrite {
    pub path: String,
    pub data: String,
}

/// Which control files the caller found present before a bind.
pub struct BindProbe {
    pub unbind_exists: bool,
    pub override_exists: bool,
    pub bind_exists: bool,
}

/// Which control files the caller found present before an unbind.
pub struct UnbindProbe {
    pub vfio_unbind_exists: bool,
    pub override_exists: bool,
    pub probe_exists: bool,
}

/// The planned sysfs writes.
#[derive(Debug)]
pub struct BindPlan {
    pub writes: Vec<SysfsWrite>,
}

/// The exact write sequence of a bind: unbind from the current driver
/// when one is attached and its control file exists, set the driver
/// override when its file exists (skipped with a warning otherwise),
/// then bind to vfio-pci.
pub open spec fn bind_writes_ok(ws: Seq<SysfsWrite>, device: PciDevice, probe: BindProbe) -> bool {
    let w_unbind = device.driver is Some && probe.unbind_exists;
    let w_ovr = probe.override_exists;
    let n_unbind: int = if w_unbind {
        1
    } else {
        0
    };
    let n_ovr: int = if w_ovr {
        1
    } else {
        0
    };
    &&& ws.len() == n_unbind + n_ovr + 1
    &&& (w_unbind ==> ws[0].path@ == device.sysfs_path@ + "/driver/unbind"@ && ws[0].data@
        == device.bdf@)
    &&& (w_ovr ==> ws[n_unbind].path@ == device.sysfs_path@ + "/driver_override"@
        && ws[n_unbind].data@ == "vfio-pci"@)
    &&& ws.last().path@ == "/sys/bus/pci/drivers/vfio-pci/bind"@
    &&& ws.last().data@ == device.bdf@
}

/// The exact write sequence of an unbind: release from vfio-pci when
/// its control file exists, clear the driver override when its file
/// exists, then ask the kernel to re-probe the device.
pub open spec fn unbind_writes_ok(ws: Seq<SysfsWrite>, device: PciDevice, probe: UnbindProbe) -> bool {
    let w_unbind = probe.vfio_unbind_exists;
    let w_ovr = probe.override_exists;
    let n_unbind: int = if w_unbind {
        1
    } else {
        0
    };
    let n_ovr: int = if w_ovr {
        1
    } else {
        0
    };
    &&& ws.len() == n_unbind + n_ovr + 1
    &&& (w_unbind ==> ws[0].path@ == "/sys/bus/pci/drivers/vfio-pci/unbind"@ && ws[0].data@
        == device.bdf@)
    &&& (w_ovr ==> ws[n_unbind].path@ == device.sysfs_path@ + "/driver_override"@
        && ws[n_unbind].data@.len() == 0)
    &&& ws.last().path@ == "/sys/bus/pci/drivers_probe"@
    &&& ws.last().data@ == device.bdf@
}

fn device_file(device: &PciDevice, tail: &str) -> (r: String)
    ensures
        r@ == device.sysfs_path@ + tail@,
{
    let mut p = chars_vec(device.sysfs_path.as_str());
    append_str(&mut p, tail);
    chars_to_string(&p)
}

impl VfioManager {
    /// Plans the binding of one PCI device to vfio-pci. Dry-run plans
    /// zero writes and succeeds even when the bind control file is
    /// absent; otherwise a missing bind file means the vfio-pci module
    /// is not loaded and the step fails with `NotFound`.
    pub fn bind_device(&self, device: &PciDevice, dry_run: bool, probe: &BindProbe) -> (r: Result<
        BindPlan,
        VfioError,
    >)
        ensures
            dry_run ==> (r matches Ok(p) && p.writes@.len() == 0),
            !dry_run && !probe.bind_exists ==> r == Err::<BindPlan, VfioError>(VfioError::NotFound),
            !dry_run && probe.bind_exists ==> (r matches Ok(p) && bind_writes_ok(
                p.writes@,
                *device,
                *probe,
            )),
    {
        if dry_run {
            return Ok(BindPlan { writes: Vec::new() });
        }
        if !probe.bind_exists {
            return Err(VfioError::NotFound);
        }
        let mut writes: Vec<SysfsWrite> = Vec::new();
        if device.driver.is_some() && probe.unbind_exists {
            writes.push(
                SysfsWrite { path: device_file(device, "/driver/unbind"), data: device.bdf.clone() },
            );
        }
        if probe.override_exists {
            writes.push(
                SysfsWrite {
                    path: device_file(device, "/driver_override"),
                    data: String::from_str("vfio-pci"),
                },
            );
        }
        writes.push(
            SysfsWrite {
                path: String::from_str("/sys/bus/pci/drivers/vfio-pci/bind"),
                data: device.bdf.clone(),
            },
        );
        Ok(BindPlan { writes })
    }

    /// Plans the release of one PCI device from vfio-pci. Dry-run plans
    /// zero writes; otherwise the global re-probe control file is
    /// expected to exist, and its absence is fatal.
    pub fn unbind_device(&self, device: &PciDevice, dry_run: bool, probe: &UnbindProbe) -> (r:
        Result<BindPlan, VfioError>)
        ensures
            dry_run ==> (r matches Ok(p) && p.writes@.len() == 0),
            !dry_run && !probe.probe_exists ==> r == Err::<BindPlan, VfioError>(
                VfioError::NotFound,
            ),
            !dry_run && probe.probe_exists ==> (r matches Ok(p) && unbind_writes_ok(
                p.writes@,
                *device,
                *probe,
            )),
    {
        if dry_run {
            return Ok(BindPlan { writes: Vec::new() });
        }
        if !probe.probe_exists {
            return Err(VfioError::NotFound);
        }
        let mut writes: Vec<SysfsWrite> = Vec::new();
        if probe.vfio_unbind_exists {
            writes.push(
                SysfsWrite {
                    path: String::from_str("/sys/bus/pci/drivers/vfio-pci/unbind"),
                    data: device.bdf.clone(),
                },
            );
        }
        if probe.override_exists {
            writes.push(
                SysfsWrite { path: device_file(device, "/driver_override"), data: String::new() },
            );
        }
        writes.push(
            SysfsWrite {
                path: String::from_str("/sys/bus/pci/drivers_probe"),
                data: device.bdf.clone(),
            },
        );
        Ok(BindPlan { writes })
    }
}

} // verus!
