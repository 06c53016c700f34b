//! The remaining bootloader backends and the dispatch over backend kinds.
//!
//! The per-entry backend (systemd-boot) is not implemented yet and says
//! so explicitly instead of claiming success; the external-process
//! backend (kernelstub) turns each parameter mutation into one command
//! invocation, best-effort per parameter.

use vstd::prelude::*;
use vstd::string::*;
use crate::strutil::{chars_vec, chars_to_string, split_ws, split_whitespace_chars, match_at,
    match_at_x, spec_trim, trim_chars, split_nl, split_lines_chars, tokens_to_strings};
use crate::system::BootloaderType;
use crate::grub::{GrubConfig, UpdatePlan};
use crate::errors::VfioError;

verus! {

/// The per-entry backend: parameters are duplicated across entry files
/// under the ESP. Until the entry-file editing is implemented, every
/// mutation reports `Unsupported` rather than claiming success.
pub struct SystemdBootConfig {
    pub esp_path: String,
    pub entries_path: String,
}

impl SystemdBootConfig {
    pub fn new() -> (r: SystemdBootConfig)
        ensures
            r.esp_path@ == "/boot/efi"@,
            r.entries_path@ == "loader/entries"@,
    {
        SystemdBootConfig {
            esp_path: String::from_str("/boot/efi"),
            entries_path: String::from_str("loader/entries"),
        }
    }

    /// Entry-file reading is not wired up; no parameters are reported.
    pub fn get_config_parameters(&self) -> (r: Vec<String>)
        ensures
            r@.len() == 0,
    {
        Vec::new()
    }

    /// Not implemented: says so instead of claiming success.
    pub fn add_parameters(&self, _params: &Vec<String>, _dry_run: bool) -> (r: Result<
        bool,
        VfioError,
    >)
        ensures
            r == Err::<bool, VfioError>(VfioError::Unsupported),
    {
        Err(VfioError::Unsupported)
    }

    /// Not implemented: says so instead of claiming success.
    pub fn remove_parameters(&self, _params: &Vec<String>, _dry_run: bool) -> (r: Result<
        bool,
        VfioError,
    >)
        ensures
            r == Err::<bool, VfioError>(VfioError::Unsupported),
    {
        Err(VfioError::Unsupported)
    }

    /// Entry-file backups are not wired up; none are named.
    pub fn create_backup(&self) -> (r: Vec<String>)
        ensures
            r@.len() == 0,
    {
        Vec::new()
    }

    /// systemd-boot needs no explicit regeneration after entry edits.
    pub fn update_bootloader(&self, _dry_run: bool) -> (r: UpdatePlan)
        ensures
            r.command is None,
            !r.execute,
    {
        UpdatePlan { command: None, execute: false }
    }
}

/// The external-process backend: every mutation is one `kernelstub`
/// invocation.
pub struct KernelstubConfig {}

/// The invocation for one set of kernelstub arguments.
pub open spec fn kernelstub_cmd(args: Seq<Seq<char>>) -> Seq<Seq<char>> {
    seq!["sudo"@, "kernelstub"@] + args
}

impl KernelstubConfig {
    pub fn new() -> (r: KernelstubConfig) {
        KernelstubConfig {}
    }

    /// Builds one kernelstub invocation; under dry-run it is reported,
    /// not run.
    pub fn run_kernelstub(&self, args: &Vec<String>, dry_run: bool) -> (r: UpdatePlan)
        ensures
            (r.command matches Some(c) && c@.map_values(|s: String| s@) == kernelstub_cmd(
                args@.map_values(|s: String| s@),
            )),
            r.execute == !dry_run,
    {
        let mut c: Vec<String> = Vec::new();
        c.push(String::from_str("sudo"));
        c.push(String::from_str("kernelstub"));
        let mut i: usize = 0;
        while i < args.len()
            invariant
                i <= args.len(),
                c@.map_values(|s: String| s@) == seq!["sudo"@, "kernelstub"@] + args@.map_values(
                    |s: String| s@,
                ).take(i as int),
            decreases args.len() - i,
        {
            let ghost cm = c@.map_values(|s: String| s@);
            c.push(args[i].clone());
            proof {
                assert(c@.map_values(|s: String| s@) =~= cm.push(
                    args@.map_values(|s: String| s@)[i as int],
                ));
                assert(cm.push(args@.map_values(|s: String| s@)[i as int]) =~= seq![
                    "sudo"@,
                    "kernelstub"@,
                ] + args@.map_values(|s: String| s@).take(i + 1 as int));
            }
            i = i + 1;
        }
        proof {
            let am = args@.map_values(|s: String| s@);
            assert(am.take(am.len() as int) =~= am);
            assert(c@.map_values(|s: String| s@) == kernelstub_cmd(am));
        }
        UpdatePlan { command: Some(c), execute: !dry_run }
    }

    /// Parses `kernelstub -p` output: the tokens after the first
    /// `Kernel Boot Options:` line, or none.
    pub fn get_config_parameters(&self, print_stdout: &str) -> (r: Vec<String>)
        ensures
            ({
                let lines = split_nl(print_stdout@);
                match first_options_line(lines, 0) {
                    None => r@.len() == 0,
                    Some(i) => r@.map_values(|s: String| s@) == split_ws(
                        lines[i].skip("Kernel Boot Options:"@.len() as int),
                    ),
                }
            }),
    {
        let cs = chars_vec(print_stdout);
        let lines = split_lines_chars(&cs);
        let ghost lm = lines@.map_values(|t: Vec<char>| t@);
        let pref = chars_vec("Kernel Boot Options:");
        let mut i: usize = 0;
        while i < lines.len()
            invariant
                i <= lines.len(),
                lm == lines@.map_values(|t: Vec<char>| t@),
                lm == split_nl(print_stdout@),
                pref@ == "Kernel Boot Options:"@,
                first_options_line(lm, 0) == first_options_line(lm, i as int),
            decreases lines.len() - i,
        {
            proof {
                assert(lm[i as int] == lines@[i as int]@);
            }
            if match_at_x(&lines[i], 0, &pref) {
                proof {
                    assert(first_options_line(lm, i as int) == Some(i as int));
                }
                let line = &lines[i];
                let mut rest: Vec<char> = Vec::new();
                let mut k: usize = pref.len();
                while k < line.len()
                    invariant
                        pref@.len() <= k <= line@.len(),
                        rest@ == line@.subrange(pref@.len() as int, k as int),
                    decreases line.len() - k,
                {
                    rest.push(line[k]);
                    proof {
                        assert(rest@ =~= line@.subrange(pref@.len() as int, k + 1 as int));
                    }
                    k = k + 1;
                }
                proof {
                    assert(rest@ =~= line@.skip(pref@.len() as int));
                }
                let toks = split_whitespace_chars(&rest);
                return tokens_to_strings(&toks);
            }
            i = i + 1;
        }
        proof {
            assert(first_options_line(lm, i as int) is None);
        }
        Vec::new()
    }

    /// One `kernelstub -a` invocation per parameter; a failing one is
    /// reported and does not abort the batch.
    pub fn add_parameters(&self, params: &Vec<String>, dry_run: bool) -> (r: Vec<UpdatePlan>)
        ensures
            r@.len() == params@.len(),
            forall|i: int| 0 <= i < r@.len() ==> (#[trigger] r@[i]).execute == !dry_run
                && (r@[i].command matches Some(c) && c@.map_values(|s: String| s@)
                == kernelstub_cmd(seq!["-a"@, params@[i]@])),
    {
        self.param_invocations(params, "-a", dry_run)
    }

    /// One `kernelstub -d` invocation per parameter; a failing one is
    /// reported and does not abort the batch.
    pub fn remove_parameters(&self, params: &Vec<String>, dry_run: bool) -> (r: Vec<UpdatePlan>)
        ensures
            r@.len() == params@.len(),
            forall|i: int| 0 <= i < r@.len() ==> (#[trigger] r@[i]).execute == !dry_run
                && (r@[i].command matches Some(c) && c@.map_values(|s: String| s@)
                == kernelstub_cmd(seq!["-d"@, params@[i]@])),
    {
        self.param_invocations(params, "-d", dry_run)
    }

    fn param_invocations(&self, params: &Vec<String>, flag: &str, dry_run: bool) -> (r: Vec<
        UpdatePlan,
    >)
        ensures
            r@.len() == params@.len(),
            forall|i: int| 0 <= i < r@.len() ==> (#[trigger] r@[i]).execute == !dry_run
                && (r@[i].command matches Some(c) && c@.map_values(|s: String| s@)
                == kernelstub_cmd(seq![flag@, params@[i]@])),
    {
        let mut out: Vec<UpdatePlan> = Vec::new();
        let mut i: usize = 0;
        while i < params.len()
            invariant
                i <= params.len(),
                out@.len() == i,
                forall|k: int| 0 <= k < i ==> (#[trigger] out@[k]).execute == !dry_run
                    && (out@[k].command matches Some(c) && c@.map_values(|s: String| s@)
                    == kernelstub_cmd(seq![flag@, params@[k]@])),
            decreases params.len() - i,
        {
            let mut args: Vec<String> = Vec::new();
            args.push(String::from_str(flag));
            args.push(params[i].clone());
            proof {
                assert(args@.map_values(|s: String| s@) =~= seq![flag@, params@[i as int]@]);
            }
            let plan = self.run_kernelstub(&args, dry_run);
            out.push(plan);
            i = i + 1;
        }
        out
    }

    /// kernelstub keeps its own backups; none are named here.
    pub fn create_backup(&self) -> (r: Vec<String>)
        ensures
            r@.len() == 0,
    {
        Vec::new()
    }

    /// kernelstub applies changes as it runs; no separate regeneration.
    pub fn update_bootloader(&self, _dry_run: bool) -> (r: UpdatePlan)
        ensures
            r.command is None,
            !r.execute,
    {
        UpdatePlan { command: None, execute: false }
    }
}

/// Index of the first `Kernel Boot Options:` line.
pub open spec fn first_options_line(lines: Seq<Seq<char>>, i: int) -> Option<int>
    decreases lines.len() - i,
{
    if 0 <= i < lines.len() {
        if match_at(lines[i], 0, "Kernel Boot Options:"@) {
            Some(i)
        } else {
            first_options_line(lines, i + 1)
        }
    } else {
        None
    }
}

/// Whether a parameter batch changed anything: at least one invocation
/// ran, or would have run.
pub fn batch_changed(attempted: &Vec<bool>) -> (r: bool)
    ensures
        r == exists|i: int| 0 <= i < attempted@.len() && attempted@[i],
{
    let mut i: usize = 0;
    while i < attempted.len()
        invariant
            i <= attempted.len(),
            forall|k: int| 0 <= k < i ==> !attempted@[k],
        decreases attempted.len() - i,
    {
        if attempted[i] {
            return true;
        }
        i = i + 1;
    }
    false
}

/// One backend, tagged by kind, matched exhaustively at each call site.
pub enum BootloaderManager {
    Grub(GrubConfig),
    SystemdBoot(SystemdBootConfig),
    Kernelstub(KernelstubConfig),
}

/// The backend for a detected bootloader family; unsupported families
/// get none.
pub fn get_bootloader_manager(bootloader_type: &BootloaderType) -> (r: Option<BootloaderManager>)
    ensures
        match bootloader_type {
            BootloaderType::Grub => r matches Some(BootloaderManager::Grub(g))
                && g.default_grub_path@ == "/etc/default/grub"@,
            BootloaderType::SystemdBoot => r matches Some(BootloaderManager::SystemdBoot(_)),
            BootloaderType::PopOsKernelstub => r matches Some(BootloaderManager::Kernelstub(_)),
            BootloaderType::Other(_) => r is None,
            BootloaderType::Unknown => r is None,
        },
{
    match bootloader_type {
        BootloaderType::Grub => Some(BootloaderManager::Grub(GrubConfig::new())),
        BootloaderType::SystemdBoot => Some(BootloaderManager::SystemdBoot(SystemdBootConfig::new())),
        BootloaderType::PopOsKernelstub => Some(
            BootloaderManager::Kernelstub(KernelstubConfig::new()),
        ),
        BootloaderType::Other(_) => None,
        BootloaderType::Unknown => None,
    }
}

} // verus!
