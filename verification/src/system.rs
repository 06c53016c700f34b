//! Detection of host properties — bootloader family, kernel version, CPU
//! vendor, init and initramfs systems, secure boot, distribution — from
//! plain probe inputs that the caller reads off the machine.

use vstd::prelude::*;
use vstd::string::*;
use crate::strutil::{chars_vec, chars_to_string, append_str, split_ch, split_char_chars,
    split_ws, split_whitespace_chars, has_sub, contains_sub, match_at, spec_trim, trim_chars,
    lower, lower_chars, strip_pref_rep, strip_prefix_rep, strip_matches, strip_matches_chars,
    spec_parse_u32, parse_u32, digit_prefix_len, digit_prefix, split_nl, split_lines_chars};

verus! {

/// The bootloader family found on the host.
#[derive(Debug, Clone, PartialEq, Eq)]
pub enum BootloaderType {
    Grub,
    SystemdBoot,
    PopOsKernelstub,
    Other(String),
    Unknown,
}

/// The host's CPU vendor.
#[derive(Debug, Clone, PartialEq, Eq)]
pub enum CpuVendor {
    AMD,
    Intel,
    Other(String),
}

/// The host's init system.
#[derive(Debug, Clone, PartialEq, Eq)]
pub enum InitSystem {
    Systemd,
    OpenRC,
    SysVInit,
    Other(String),
    Unknown,
}

/// The host's initramfs machinery.
#[derive(Debug, Clone, PartialEq, Eq)]
pub enum InitramfsSystem {
    Dracut,
    Mkinitcpio,
    Booster,
    Debian,
    Other(String),
    Unknown,
}

/// The base distribution family.
#[derive(Debug, Clone, PartialEq, Eq)]
pub enum DistroFamily {
    Arch,
    Debian,
    Fedora,
    Suse,
    Gentoo,
    Other(String),
}

/// The Linux distribution, as `/etc/os-release` names it.
#[derive(Debug, Clone)]
pub struct Distribution {
    pub name: String,
    pub version: String,
    pub id: String,
    pub family: Option<DistroFamily>,
}

/// The kernel version, parsed from its version string.
#[derive(Debug, Clone)]
pub struct KernelVersion {
    pub major: u32,
    pub minor: u32,
    pub patch: Option<u32>,
    pub full_version: String,
}

/// Everything the detectors found.
#[derive(Debug, Clone)]
pub struct SystemInfo {
    pub bootloader: BootloaderType,
    pub kernel_version: KernelVersion,
    pub cpu_vendor: CpuVendor,
    pub virtualization_enabled: bool,
    pub init_system: InitSystem,
    pub initramfs_system: InitramfsSystem,
    pub secure_boot_enabled: Option<bool>,
    pub distribution: Option<Distribution>,
}

/// What the caller probed off the machine, as plain values: whether the
/// well-known marker files exist, and the text of the well-known inputs
/// where readable.
pub struct SystemProbe {
    pub grub_default_exists: bool,
    pub loader_conf_exists: bool,
    pub os_release: Option<String>,
    pub uname_release: Option<String>,
    pub proc_version: Option<String>,
    pub cpuinfo: Option<String>,
    pub systemd_run_exists: bool,
    pub openrc_exists: bool,
    pub inittab_exists: bool,
    pub mkinitcpio_exists: bool,
    pub dracut_exists: bool,
    pub booster_exists: bool,
    pub initramfs_tools_exists: bool,
    pub mokutil_stdout: Option<String>,
    pub secure_boot_efivar: Option<Vec<u8>>,
}

/// One component of a dotted version string; a failed parse counts as
/// zero.
pub open spec fn spec_vpart(parts: Seq<Seq<char>>, i: int) -> u32 {
    if 0 <= i < parts.len() {
        match spec_parse_u32(parts[i]) {
            Some(v) => v,
            None => 0,
        }
    } else {
        0
    }
}

/// Parses `major.minor.patch-extra` version text. Major and minor fall
/// back to zero; the patch keeps only its leading digits and is absent
/// when they are empty or out of range.
pub fn parse_kernel_version(version_str: &str) -> (r: KernelVersion)
    ensures
        ({
            let parts = split_ch(version_str@, '.');
            &&& r.major == spec_vpart(parts, 0)
            &&& r.minor == spec_vpart(parts, 1)
            &&& r.patch == (if parts.len() > 2 {
                spec_parse_u32(parts[2].take(digit_prefix_len(parts[2], 0)))
            } else {
                None::<u32>
            })
            &&& r.full_version@ == version_str@
        }),
{
    let cs = chars_vec(version_str);
    let parts = split_char_chars(&cs, '.');
    let ghost pm = parts@.map_values(|t: Vec<char>| t@);
    let major = match parse_u32(&parts[0]) {
        Some(v) => v,
        None => 0,
    };
    let minor = if parts.len() > 1 {
        match parse_u32(&parts[1]) {
            Some(v) => v,
            None => 0,
        }
    } else {
        0
    };
    let patch = if parts.len() > 2 {
        let dp = digit_prefix(&parts[2]);
        parse_u32(&dp)
    } else {
        None
    };
    KernelVersion { major, minor, patch, full_version: String::from_str(version_str) }
}

/// Which bootloader the marker files point at. A GRUB default file wins;
/// a systemd-boot loader entry names Pop!_OS's kernelstub when the OS
/// identifies as Pop.
pub fn detect_bootloader(
    grub_default_exists: bool,
    loader_conf_exists: bool,
    os_release: Option<&String>,
) -> (r: BootloaderType)
    ensures
        grub_default_exists ==> r == BootloaderType::Grub,
        !grub_default_exists && loader_conf_exists ==> (match os_release {
            Some(t) => if has_sub(t@, "ID=pop"@) {
                r == BootloaderType::PopOsKernelstub
            } else {
                r == BootloaderType::SystemdBoot
            },
            None => r == BootloaderType::SystemdBoot,
        }),
        !grub_default_exists && !loader_conf_exists ==> r == BootloaderType::Unknown,
{
    if grub_default_exists {
        return BootloaderType::Grub;
    }
    if loader_conf_exists {
        match os_release {
            Some(t) => {
                let cs = chars_vec(t.as_str());
                let needle = chars_vec("ID=pop");
                if contains_sub(&cs, &needle) {
                    return BootloaderType::PopOsKernelstub;
                }
                return BootloaderType::SystemdBoot;
            },
            None => {
                return BootloaderType::SystemdBoot;
            },
        }
    }
    BootloaderType::Unknown
}

/// The kernel version: `uname -r` output when available, else the third
/// word of `/proc/version`, else unknown.
pub fn detect_kernel_version(uname_release: Option<&String>, proc_version: Option<&String>) -> (r:
    KernelVersion)
    ensures
        uname_release matches Some(t) ==> r.full_version@ == spec_trim(t@),
        uname_release is None && proc_version is None ==> r.major == 0 && r.minor == 0 && r.patch
            is None && r.full_version@ == "unknown"@,
{
    match uname_release {
        Some(t) => {
            let cs = chars_vec(t.as_str());
            let trimmed = trim_chars(&cs);
            let ts = chars_to_string(&trimmed);
            return parse_kernel_version(ts.as_str());
        },
        None => {},
    }
    match proc_version {
        Some(t) => {
            let cs = chars_vec(t.as_str());
            let words = split_whitespace_chars(&cs);
            if words.len() > 2 {
                let ws = chars_to_string(&words[2]);
                return parse_kernel_version(ws.as_str());
            }
        },
        None => {},
    }
    KernelVersion { major: 0, minor: 0, patch: None, full_version: String::from_str("unknown") }
}

/// Index of the first line opening with the prefix.
pub open spec fn first_with_prefix(lines: Seq<Seq<char>>, i: int, pref: Seq<char>) -> Option<int>
    decreases lines.len() - i,
{
    if 0 <= i < lines.len() {
        if match_at(lines[i], 0, pref) {
            Some(i)
        } else {
            first_with_prefix(lines, i + 1, pref)
        }
    } else {
        None
    }
}

/// The CPU vendor named by the first `vendor_id` line of `/proc/cpuinfo`.
pub fn detect_cpu_vendor(cpuinfo: Option<&String>) -> (r: CpuVendor)
    ensures
        ({
            let fallback = r matches CpuVendor::Other(s) && s@ == "Unknown"@;
            match cpuinfo {
                None => fallback,
                Some(t) => {
                    let lines = split_nl(t@);
                    match first_with_prefix(lines, 0, "vendor_id"@) {
                        None => fallback,
                        Some(i) => {
                            let line = lines[i];
                            if has_sub(line, "AuthenticAMD"@) {
                                r == CpuVendor::AMD
                            } else if has_sub(line, "GenuineIntel"@) {
                                r == CpuVendor::Intel
                            } else {
                                let cols = split_ch(line, ':');
                                if cols.len() > 1 {
                                    r matches CpuVendor::Other(s) && s@ == spec_trim(cols[1])
                                } else {
                                    fallback
                                }
                            }
                        },
                    }
                },
            }
        }),
{
    match cpuinfo {
        None => {},
        Some(t) => {
            let cs = chars_vec(t.as_str());
            let lines = split_lines_chars(&cs);
            let ghost lm = lines@.map_values(|x: Vec<char>| x@);
            let pref = chars_vec("vendor_id");
            let mut i: usize = 0;
            while i < lines.len()
                invariant
                    i <= lines.len(),
                    lm == lines@.map_values(|x: Vec<char>| x@),
                    lm == split_nl(t@),
                    cpuinfo == Some(t),
                    pref@ == "vendor_id"@,
                    first_with_prefix(lm, 0, "vendor_id"@) == first_with_prefix(
                        lm,
                        i as int,
                        "vendor_id"@,
                    ),
                decreases lines.len() - i,
            {
                proof {
                    assert(lm[i as int] == lines@[i as int]@);
                }
                if crate::strutil::match_at_x(&lines[i], 0, &pref) {
                    proof {
                        assert(first_with_prefix(lm, i as int, "vendor_id"@) == Some(i as int));
                    }
                    let amd = chars_vec("AuthenticAMD");
                    if contains_sub(&lines[i], &amd) {
                        return CpuVendor::AMD;
                    }
                    let intel = chars_vec("GenuineIntel");
                    if contains_sub(&lines[i], &intel) {
                        return CpuVendor::Intel;
                    }
                    let cols = split_char_chars(&lines[i], ':');
                    if cols.len() > 1 {
                        let trimmed = trim_chars(&cols[1]);
                        return CpuVendor::Other(chars_to_string(&trimmed));
                    }
                    return CpuVendor::Other(String::from_str("Unknown"));
                }
                i = i + 1;
            }
            proof {
                assert(first_with_prefix(lm, i as int, "vendor_id"@) is None);
            }
        },
    }
    CpuVendor::Other(String::from_str("Unknown"))
}

/// Whether the first `flags` line of `/proc/cpuinfo` reports AMD-V or
/// Intel VT-x support.
pub fn check_virtualization_support(cpuinfo: Option<&String>) -> (r: bool)
    ensures
        r == match cpuinfo {
            None => false,
            Some(t) => {
                let lines = split_nl(t@);
                match first_with_prefix(lines, 0, "flags"@) {
                    None => false,
                    Some(i) => has_sub(lines[i], " svm "@) || has_sub(lines[i], " vmx "@),
                }
            },
        },
{
    match cpuinfo {
        None => false,
        Some(t) => {
            let cs = chars_vec(t.as_str());
            let lines = split_lines_chars(&cs);
            let ghost lm = lines@.map_values(|x: Vec<char>| x@);
            let pref = chars_vec("flags");
            let mut i: usize = 0;
            while i < lines.len()
                invariant
                    i <= lines.len(),
                    lm == lines@.map_values(|x: Vec<char>| x@),
                    lm == split_nl(t@),
                    cpuinfo == Some(t),
                    pref@ == "flags"@,
                    first_with_prefix(lm, 0, "flags"@) == first_with_prefix(
                        lm,
                        i as int,
                        "flags"@,
                    ),
                decreases lines.len() - i,
            {
                proof {
                    assert(lm[i as int] == lines@[i as int]@);
                }
                if crate::strutil::match_at_x(&lines[i], 0, &pref) {
                    proof {
                        assert(first_with_prefix(lm, i as int, "flags"@) == Some(i as int));
                    }
                    let svm = chars_vec(" svm ");
                    let vmx = chars_vec(" vmx ");
                    return contains_sub(&lines[i], &svm) || contains_sub(&lines[i], &vmx);
                }
                i = i + 1;
            }
            proof {
                assert(first_with_prefix(lm, i as int, "flags"@) is None);
            }
            false
        },
    }
}

/// The init system behind the marker files, in the order checked.
pub fn detect_init_system(
    systemd_run_exists: bool,
    openrc_exists: bool,
    inittab_exists: bool,
) -> (r: InitSystem)
    ensures
        r == if systemd_run_exists {
            InitSystem::Systemd
        } else if openrc_exists {
            InitSystem::OpenRC
        } else if inittab_exists {
            InitSystem::SysVInit
        } else {
            InitSystem::Unknown
        },
{
    if systemd_run_exists {
        InitSystem::Systemd
    } else if openrc_exists {
        InitSystem::OpenRC
    } else if inittab_exists {
        InitSystem::SysVInit
    } else {
        InitSystem::Unknown
    }
}

/// The initramfs machinery behind the marker files, in the order checked.
pub fn detect_initramfs_system(
    mkinitcpio_exists: bool,
    dracut_exists: bool,
    booster_exists: bool,
    initramfs_tools_exists: bool,
) -> (r: InitramfsSystem)
    ensures
        r == if mkinitcpio_exists {
            InitramfsSystem::Mkinitcpio
        } else if dracut_exists {
            InitramfsSystem::Dracut
        } else if booster_exists {
            InitramfsSystem::Booster
        } else if initramfs_tools_exists {
            InitramfsSystem::Debian
        } else {
            InitramfsSystem::Unknown
        },
{
    if mkinitcpio_exists {
        InitramfsSystem::Mkinitcpio
    } else if dracut_exists {
        InitramfsSystem::Dracut
    } else if booster_exists {
        InitramfsSystem::Booster
    } else if initramfs_tools_exists {
        InitramfsSystem::Debian
    } else {
        InitramfsSystem::Unknown
    }
}

/// Secure-boot state: what `mokutil --sb-state` reports when it ran, else
/// what the EFI variable's final byte says, else undetermined.
pub fn detect_secure_boot(
    mokutil_stdout: Option<&String>,
    secure_boot_efivar: Option<&Vec<u8>>,
) -> (r: Option<bool>)
    ensures
        ({
            let from_var = match secure_boot_efivar {
                Some(data) => if data@.len() > 4 {
                    Some(data@.last() == 1u8)
                } else {
                    None::<bool>
                },
                None => None::<bool>,
            };
            r == match mokutil_stdout {
                Some(t) => if has_sub(lower(t@), "secureboot enabled"@) {
                    Some(true)
                } else if has_sub(lower(t@), "secureboot disabled"@) {
                    Some(false)
                } else {
                    from_var
                },
                None => from_var,
            }
        }),
{
    match mokutil_stdout {
        Some(t) => {
            let cs = chars_vec(t.as_str());
            let low = lower_chars(&cs);
            let en = chars_vec("secureboot enabled");
            if contains_sub(&low, &en) {
                return Some(true);
            }
            let dis = chars_vec("secureboot disabled");
            if contains_sub(&low, &dis) {
                return Some(false);
            }
        },
        None => {},
    }
    match secure_boot_efivar {
        Some(data) => {
            if data.len() > 4 {
                Some(data[data.len() - 1] == 1u8)
            } else {
                None
            }
        },
        None => None,
    }
}

/// The last value of an `os-release` field: the line's text after the
/// field prefix, unquoted.
pub open spec fn os_field(lines: Seq<Seq<char>>, pref: Seq<char>) -> Seq<char>
    decreases lines.len(),
{
    if lines.len() == 0 {
        Seq::empty()
    } else if match_at(lines.last(), 0, pref) {
        strip_matches(strip_pref_rep(lines.last(), pref), '"')
    } else {
        os_field(lines.drop_last(), pref)
    }
}

fn os_field_x(lines: &Vec<Vec<char>>, pref: &Vec<char>) -> (r: Vec<char>)
    ensures
        r@ == os_field(lines@.map_values(|x: Vec<char>| x@), pref@),
{
    let ghost lm = lines@.map_values(|x: Vec<char>| x@);
    let mut cur: Vec<char> = Vec::new();
    let mut i: usize = 0;
    proof {
        assert(lm.take(0) =~= Seq::<Seq<char>>::empty());
        assert(cur@ =~= os_field(lm.take(0), pref@));
    }
    while i < lines.len()
        invariant
            i <= lines.len(),
            lm == lines@.map_values(|x: Vec<char>| x@),
            cur@ == os_field(lm.take(i as int), pref@),
        decreases lines.len() - i,
    {
        proof {
            assert(lm.take(i + 1 as int).drop_last() =~= lm.take(i as int));
            assert(lm.take(i + 1 as int).last() == lm[i as int]);
            assert(lm[i as int] == lines@[i as int]@);
        }
        if crate::strutil::match_at_x(&lines[i], 0, pref) {
            let stripped = strip_prefix_rep(&lines[i], pref);
            cur = strip_matches_chars(&stripped, '"');
        }
        i = i + 1;
    }
    proof {
        assert(lm.take(lm.len() as int) =~= lm);
    }
    cur
}

/// The distribution named by `/etc/os-release`: the last `NAME=`,
/// `VERSION=`, `ID=` and `ID_LIKE=` lines, unquoted; no `NAME` means no
/// distribution.
pub fn detect_distribution(os_release: Option<&String>) -> (r: Option<Distribution>)
    ensures
        ({
            match os_release {
                None => r is None,
                Some(t) => {
                    let lines = split_nl(t@);
                    let name = os_field(lines, "NAME="@);
                    if name.len() == 0 {
                        r is None
                    } else {
                        match r {
                            None => false,
                            Some(d) => d.name@ == name && d.version@ == os_field(
                                lines,
                                "VERSION="@,
                            ) && d.id@ == os_field(lines, "ID="@) && family_matches(
                                d.family,
                                os_field(lines, "ID="@),
                                os_field(lines, "ID_LIKE="@),
                            ),
                        }
                    }
                },
            }
        }),
{
    match os_release {
        None => None,
        Some(t) => {
            let cs = chars_vec(t.as_str());
            let lines = split_lines_chars(&cs);
            let name = os_field_x(&lines, &chars_vec("NAME="));
            if name.len() == 0 {
                return None;
            }
            let version = os_field_x(&lines, &chars_vec("VERSION="));
            let id = os_field_x(&lines, &chars_vec("ID="));
            let id_like = os_field_x(&lines, &chars_vec("ID_LIKE="));
            let ids = chars_to_string(&id);
            let likes = chars_to_string(&id_like);
            let family = determine_distro_family(ids.as_str(), likes.as_str());
            Some(
                Distribution {
                    name: chars_to_string(&name),
                    version: chars_to_string(&version),
                    id: ids,
                    family,
                },
            )
        },
    }
}

/// Family code of one identifier token: which known family it names.
pub open spec fn fam_code(t: Seq<char>) -> int {
    if t == "arch"@ || t == "garuda"@ || t == "manjaro"@ || t == "endeavouros"@ {
        1
    } else if t == "debian"@ || t == "ubuntu"@ || t == "linuxmint"@ || t == "pop"@
        || t == "elementary"@ {
        2
    } else if t == "fedora"@ || t == "rhel"@ || t == "centos"@ || t == "rocky"@ || t == "alma"@ {
        3
    } else if t == "opensuse"@ || t == "suse"@ || t == "tumbleweed"@ || t == "leap"@ {
        4
    } else if t == "gentoo"@ {
        5
    } else {
        0
    }
}

/// The first recognized family code among the candidate tokens.
pub open spec fn first_fam(tokens: Seq<Seq<char>>, i: int) -> int
    decreases tokens.len() - i,
{
    if 0 <= i < tokens.len() {
        if fam_code(tokens[i]) != 0 {
            fam_code(tokens[i])
        } else {
            first_fam(tokens, i + 1)
        }
    } else {
        0
    }
}

/// What the family decision means: the first known token of
/// `ID_LIKE`'s words followed by `ID` decides; with none known, a
/// nonempty `ID` is carried as its own family, and an empty one gives
/// nothing.
pub open spec fn family_matches(r: Option<DistroFamily>, id: Seq<char>, id_like: Seq<char>) -> bool {
    let tokens = split_ws(id_like).push(id);
    let code = first_fam(tokens, 0);
    match r {
        Some(DistroFamily::Arch) => code == 1,
        Some(DistroFamily::Debian) => code == 2,
        Some(DistroFamily::Fedora) => code == 3,
        Some(DistroFamily::Suse) => code == 4,
        Some(DistroFamily::Gentoo) => code == 5,
        Some(DistroFamily::Other(s)) => code == 0 && id.len() > 0 && s@ == id,
        None => code == 0 && id.len() == 0,
    }
}

fn token_fam(t: &Vec<char>) -> (r: u32)
    ensures
        r as int == fam_code(t@),
{
    let s = chars_to_string(t);
    if s == String::from_str("arch") || s == String::from_str("garuda") || s == String::from_str(
        "manjaro",
    ) || s == String::from_str("endeavouros") {
        1
    } else if s == String::from_str("debian") || s == String::from_str("ubuntu") || s
        == String::from_str("linuxmint") || s == String::from_str("pop") || s == String::from_str(
        "elementary",
    ) {
        2
    } else if s == String::from_str("fedora") || s == String::from_str("rhel") || s
        == String::from_str("centos") || s == String::from_str("rocky") || s == String::from_str(
        "alma",
    ) {
        3
    } else if s == String::from_str("opensuse") || s == String::from_str("suse") || s
        == String::from_str("tumbleweed") || s == String::from_str("leap") {
        4
    } else if s == String::from_str("gentoo") {
        5
    } else {
        0
    }
}

/// Determines the distribution family from the `ID` and `ID_LIKE`
/// fields: `ID_LIKE`'s words are tried first, then `ID`.
pub fn determine_distro_family(id: &str, id_like: &str) -> (r: Option<DistroFamily>)
    ensures
        family_matches(r, id@, id_like@),
{
    let likes = chars_vec(id_like);
    let mut tokens = split_whitespace_chars(&likes);
    let ghost tm0 = tokens@.map_values(|t: Vec<char>| t@);
    tokens.push(chars_vec(id));
    let ghost tm = tokens@.map_values(|t: Vec<char>| t@);
    proof {
        assert(tm =~= tm0.push(id@));
        assert(tm =~= split_ws(id_like@).push(id@));
    }
    let mut i: usize = 0;
    while i < tokens.len()
        invariant
            i <= tokens.len(),
            tm == tokens@.map_values(|t: Vec<char>| t@),
            tm == split_ws(id_like@).push(id@),
            first_fam(tm, 0) == first_fam(tm, i as int),
        decreases tokens.len() - i,
    {
        proof {
            assert(tm[i as int] == tokens@[i as int]@);
        }
        let code = token_fam(&tokens[i]);
        if code != 0 {
            proof {
                assert(first_fam(tm, i as int) == fam_code(tm[i as int]));
            }
            if code == 1 {
                return Some(DistroFamily::Arch);
            } else if code == 2 {
                return Some(DistroFamily::Debian);
            } else if code == 3 {
                return Some(DistroFamily::Fedora);
            } else if code == 4 {
                return Some(DistroFamily::Suse);
            } else {
                return Some(DistroFamily::Gentoo);
            }
        }
        i = i + 1;
    }
    proof {
        assert(first_fam(tm, i as int) == 0);
    }
    let idc = chars_vec(id);
    if idc.len() > 0 {
        Some(DistroFamily::Other(chars_to_string(&idc)))
    } else {
        None
    }
}


/// The display label of a bootloader family.
pub open spec fn bl_label(b: BootloaderType) -> Seq<char> {
    match b {
        BootloaderType::Grub => "Grub"@,
        BootloaderType::SystemdBoot => "SystemdBoot"@,
        BootloaderType::PopOsKernelstub => "PopOsKernelstub"@,
        BootloaderType::Other(s) => "Other(\""@ + s@ + "\")"@,
        BootloaderType::Unknown => "Unknown"@,
    }
}

/// The display label of a CPU vendor.
pub open spec fn cpu_label(c: CpuVendor) -> Seq<char> {
    match c {
        CpuVendor::AMD => "AMD"@,
        CpuVendor::Intel => "Intel"@,
        CpuVendor::Other(s) => "Other(\""@ + s@ + "\")"@,
    }
}

/// The display label of an init system.
pub open spec fn init_label(i: InitSystem) -> Seq<char> {
    match i {
        InitSystem::Systemd => "Systemd"@,
        InitSystem::OpenRC => "OpenRC"@,
        InitSystem::SysVInit => "SysVInit"@,
        InitSystem::Other(s) => "Other(\""@ + s@ + "\")"@,
        InitSystem::Unknown => "Unknown"@,
    }
}

/// The display label of an initramfs system.
pub open spec fn initramfs_label(i: InitramfsSystem) -> Seq<char> {
    match i {
        InitramfsSystem::Dracut => "Dracut"@,
        InitramfsSystem::Mkinitcpio => "Mkinitcpio"@,
        InitramfsSystem::Booster => "Booster"@,
        InitramfsSystem::Debian => "Debian"@,
        InitramfsSystem::Other(s) => "Other(\""@ + s@ + "\")"@,
        InitramfsSystem::Unknown => "Unknown"@,
    }
}

/// The display label of a distribution family.
pub open spec fn fam_label(f: DistroFamily) -> Seq<char> {
    match f {
        DistroFamily::Arch => "Arch"@,
        DistroFamily::Debian => "Debian"@,
        DistroFamily::Fedora => "Fedora"@,
        DistroFamily::Suse => "Suse"@,
        DistroFamily::Gentoo => "Gentoo"@,
        DistroFamily::Other(s) => "Other(\""@ + s@ + "\")"@,
    }
}

/// The whole textual summary of the detected system.
pub open spec fn spec_summary(info: SystemInfo) -> Seq<char> {
    "Kernel: "@ + info.kernel_version.full_version@ + "\n"@ + "Bootloader: "@ + bl_label(
        info.bootloader,
    ) + "\n"@ + "CPU Vendor: "@ + cpu_label(info.cpu_vendor) + "\n"@ + "Virtualization: "@ + (
    if info.virtualization_enabled {
        "Enabled"@
    } else {
        "Disabled"@
    }) + "\n"@ + (match info.distribution {
        Some(d) => "Distribution: "@ + d.name@ + " "@ + d.version@ + (match d.family {
            Some(f) => " ("@ + fam_label(f) + "-based)"@,
            None => Seq::<char>::empty(),
        }) + "\n"@,
        None => Seq::<char>::empty(),
    }) + "Init System: "@ + init_label(info.init_system) + "\n"@ + "Initramfs System: "@
        + initramfs_label(info.initramfs_system) + "\n"@ + "Secure Boot: "@ + (
    match info.secure_boot_enabled {
        Some(true) => "Enabled"@,
        Some(false) => "Disabled"@,
        None => "Unknown"@,
    }) + "\n"@
}

fn push_quoted_other(out: &mut Vec<char>, s: &String)
    ensures
        final(out)@ == old(out)@ + ("Other(\""@ + s@ + "\")"@),
{
    let ghost g = out@;
    append_str(out, "Other(\"");
    append_str(out, s.as_str());
    append_str(out, "\")");
    proof {
        assert(out@ =~= g + ("Other(\""@ + s@ + "\")"@));
    }
}

impl SystemInfo {
    /// Detects the system from the caller's probe, one detector per
    /// property.
    pub fn detect(probe: &SystemProbe) -> (r: SystemInfo)
        ensures
            probe.grub_default_exists ==> r.bootloader == BootloaderType::Grub,
            !probe.grub_default_exists && !probe.loader_conf_exists ==> r.bootloader
                == BootloaderType::Unknown,
            r.virtualization_enabled == match probe.cpuinfo {
                None => false,
                Some(t) => {
                    let lines = split_nl(t@);
                    match first_with_prefix(lines, 0, "flags"@) {
                        None => false,
                        Some(i) => has_sub(lines[i], " svm "@) || has_sub(lines[i], " vmx "@),
                    }
                },
            },
            r.init_system == detect_init_system_spec(
                probe.systemd_run_exists,
                probe.openrc_exists,
                probe.inittab_exists,
            ),
            r.initramfs_system == detect_initramfs_spec(
                probe.mkinitcpio_exists,
                probe.dracut_exists,
                probe.booster_exists,
                probe.initramfs_tools_exists,
            ),
            probe.os_release is None ==> r.distribution is None,
    {
        SystemInfo {
            bootloader: detect_bootloader(
                probe.grub_default_exists,
                probe.loader_conf_exists,
                probe.os_release.as_ref(),
            ),
            kernel_version: detect_kernel_version(
                probe.uname_release.as_ref(),
                probe.proc_version.as_ref(),
            ),
            cpu_vendor: detect_cpu_vendor(probe.cpuinfo.as_ref()),
            virtualization_enabled: check_virtualization_support(probe.cpuinfo.as_ref()),
            init_system: detect_init_system(
                probe.systemd_run_exists,
                probe.openrc_exists,
                probe.inittab_exists,
            ),
            initramfs_system: detect_initramfs_system(
                probe.mkinitcpio_exists,
                probe.dracut_exists,
                probe.booster_exists,
                probe.initramfs_tools_exists,
            ),
            secure_boot_enabled: detect_secure_boot(
                probe.mokutil_stdout.as_ref(),
                probe.secure_boot_efivar.as_ref(),
            ),
            distribution: detect_distribution(probe.os_release.as_ref()),
        }
    }

    /// The textual summary of what was detected.
    pub fn summary(&self) -> (r: String)
        ensures
            r@ == spec_summary(*self),
    {
        let mut out: Vec<char> = Vec::new();
        append_str(&mut out, "Kernel: ");
        append_str(&mut out, self.kernel_version.full_version.as_str());
        append_str(&mut out, "\n");
        append_str(&mut out, "Bootloader: ");
        let ghost g1 = out@;
        match &self.bootloader {
            BootloaderType::Grub => append_str(&mut out, "Grub"),
            BootloaderType::SystemdBoot => append_str(&mut out, "SystemdBoot"),
            BootloaderType::PopOsKernelstub => append_str(&mut out, "PopOsKernelstub"),
            BootloaderType::Other(s) => push_quoted_other(&mut out, s),
            BootloaderType::Unknown => append_str(&mut out, "Unknown"),
        }
        proof {
            assert(out@ == g1 + bl_label(self.bootloader));
        }
        append_str(&mut out, "\n");
        append_str(&mut out, "CPU Vendor: ");
        let ghost g2 = out@;
        match &self.cpu_vendor {
            CpuVendor::AMD => append_str(&mut out, "AMD"),
            CpuVendor::Intel => append_str(&mut out, "Intel"),
            CpuVendor::Other(s) => push_quoted_other(&mut out, s),
        }
        proof {
            assert(out@ == g2 + cpu_label(self.cpu_vendor));
        }
        append_str(&mut out, "\n");
        append_str(&mut out, "Virtualization: ");
        if self.virtualization_enabled {
            append_str(&mut out, "Enabled");
        } else {
            append_str(&mut out, "Disabled");
        }
        append_str(&mut out, "\n");
        let ghost g3 = out@;
        match &self.distribution {
            Some(d) => {
                append_str(&mut out, "Distribution: ");
                append_str(&mut out, d.name.as_str());
                append_str(&mut out, " ");
                append_str(&mut out, d.version.as_str());
                let ghost g4 = out@;
                match &d.family {
                    Some(f) => {
                        append_str(&mut out, " (");
                        let ghost g5 = out@;
                        match f {
                            DistroFamily::Arch => append_str(&mut out, "Arch"),
                            DistroFamily::Debian => append_str(&mut out, "Debian"),
                            DistroFamily::Fedora => append_str(&mut out, "Fedora"),
                            DistroFamily::Suse => append_str(&mut out, "Suse"),
                            DistroFamily::Gentoo => append_str(&mut out, "Gentoo"),
                            DistroFamily::Other(s) => push_quoted_other(&mut out, s),
                        }
                        proof {
                            assert(out@ == g5 + fam_label(*f));
                        }
                        append_str(&mut out, "-based)");
                    },
                    None => {},
                }
                append_str(&mut out, "\n");
            },
            None => {},
        }
        proof {
            assert(out@ =~= g3 + (match self.distribution {
                Some(d) => "Distribution: "@ + d.name@ + " "@ + d.version@ + (match d.family {
                    Some(f) => " ("@ + fam_label(f) + "-based)"@,
                    None => Seq::<char>::empty(),
                }) + "\n"@,
                None => Seq::<char>::empty(),
            }));
        }
        append_str(&mut out, "Init System: ");
        let ghost g6 = out@;
        match &self.init_system {
            InitSystem::Systemd => append_str(&mut out, "Systemd"),
            InitSystem::OpenRC => append_str(&mut out, "OpenRC"),
            InitSystem::SysVInit => append_str(&mut out, "SysVInit"),
            InitSystem::Other(s) => push_quoted_other(&mut out, s),
            InitSystem::Unknown => append_str(&mut out, "Unknown"),
        }
        proof {
            assert(out@ == g6 + init_label(self.init_system));
        }
        append_str(&mut out, "\n");
        append_str(&mut out, "Initramfs System: ");
        let ghost g7 = out@;
        match &self.initramfs_system {
            InitramfsSystem::Dracut => append_str(&mut out, "Dracut"),
            InitramfsSystem::Mkinitcpio => append_str(&mut out, "Mkinitcpio"),
            InitramfsSystem::Booster => append_str(&mut out, "Booster"),
            InitramfsSystem::Debian => append_str(&mut out, "Debian"),
            InitramfsSystem::Other(s) => push_quoted_other(&mut out, s),
            InitramfsSystem::Unknown => append_str(&mut out, "Unknown"),
        }
        proof {
            assert(out@ == g7 + initramfs_label(self.initramfs_system));
        }
        append_str(&mut out, "\n");
        append_str(&mut out, "Secure Boot: ");
        match self.secure_boot_enabled {
            Some(true) => append_str(&mut out, "Enabled"),
            Some(false) => append_str(&mut out, "Disabled"),
            None => append_str(&mut out, "Unknown"),
        }
        append_str(&mut out, "\n");
        proof {
            assert(out@ =~= spec_summary(*self));
        }
        chars_to_string(&out)
    }
}

/// The init-system decision, as a value.
pub open spec fn detect_init_system_spec(systemd: bool, openrc: bool, inittab: bool) -> InitSystem {
    if systemd {
        InitSystem::Systemd
    } else if openrc {
        InitSystem::OpenRC
    } else if inittab {
        InitSystem::SysVInit
    } else {
        InitSystem::Unknown
    }
}

/// The initramfs decision, as a value.
pub open spec fn detect_initramfs_spec(
    mkinitcpio: bool,
    dracut: bool,
    booster: bool,
    initramfs_tools: bool,
) -> InitramfsSystem {
    if mkinitcpio {
        InitramfsSystem::Mkinitcpio
    } else if dracut {
        InitramfsSystem::Dracut
    } else if booster {
        InitramfsSystem::Booster
    } else if initramfs_tools {
        InitramfsSystem::Debian
    } else {
        InitramfsSystem::Unknown
    }
}

} // verus!
