//! GPU device classification: which PCI devices are GPUs, their vendor,
//! their passthrough capabilities and whether they are integrated.
//!
//! Hardware enumeration itself is an external collaborator: the caller
//! hands in the devices (or the `lspci -vmm` text to parse) and this
//! module only classifies.

use vstd::prelude::*;
use vstd::string::*;
use crate::strutil::{chars_vec, chars_to_string, has_sub, contains_sub, lower, lower_chars,
    match_at, match_at_x, spec_trim, trim_chars, split_nl, split_lines_chars, append_str,
    append_chars};
use crate::grub::{find_from, find_from_x};
use crate::state::{slashed, slashed_x};
use crate::params::eq_chars;

verus! {

/// GPU vendors the framework knows.
#[derive(Debug, Clone, PartialEq, Eq)]
pub enum GpuVendor {
    AMD,
    NVIDIA,
    Intel,
    Other(String),
}

impl GpuVendor {
    /// The vendor's display name.
    pub fn label(&self) -> (r: String)
        ensures
            r@ == vendor_label(*self),
    {
        match self {
            GpuVendor::AMD => String::from_str("AMD"),
            GpuVendor::NVIDIA => String::from_str("NVIDIA"),
            GpuVendor::Intel => String::from_str("Intel"),
            GpuVendor::Other(name) => name.clone(),
        }
    }
}

/// The display name of a GPU vendor.
pub open spec fn vendor_label(v: GpuVendor) -> Seq<char> {
    match v {
        GpuVendor::AMD => "AMD"@,
        GpuVendor::NVIDIA => "NVIDIA"@,
        GpuVendor::Intel => "Intel"@,
        GpuVendor::Other(name) => name@,
    }
}

/// What the driver of a GPU can do for passthrough.
#[derive(Debug, Clone)]
pub struct GpuDriverCapabilities {
    pub supports_reset: bool,
    pub requires_acs_override: bool,
    pub supports_fbc: bool,
    pub supports_gvt: bool,
    pub has_reset_bug: bool,
    pub needs_code_43_workaround: bool,
    pub supports_vbios_loading: bool,
}

impl Default for GpuDriverCapabilities {
    /// No capability assumed.
    fn default() -> (r: GpuDriverCapabilities)
        ensures
            !r.supports_reset && !r.requires_acs_override && !r.supports_fbc && !r.supports_gvt
                && !r.has_reset_bug && !r.needs_code_43_workaround && !r.supports_vbios_loading,
    {
        GpuDriverCapabilities {
            supports_reset: false,
            requires_acs_override: false,
            supports_fbc: false,
            supports_gvt: false,
            has_reset_bug: false,
            needs_code_43_workaround: false,
            supports_vbios_loading: false,
        }
    }
}

/// One PCI device, as the hardware-detection collaborator hands it over:
/// an opaque BDF key plus its sysfs location and descriptive strings.
#[derive(Debug, Clone)]
pub struct PciDevice {
    pub bdf: String,
    pub vendor_id: String,
    pub device_id: String,
    pub class: String,
    pub vendor_name: String,
    pub device_name: String,
    pub driver: Option<String>,
    pub sysfs_path: String,
}

/// A detected GPU.
#[derive(Debug, Clone)]
pub struct GpuDevice {
    pub bdf: String,
    pub vendor_id: String,
    pub device_id: String,
    pub vendor: GpuVendor,
    pub model_name: String,
    pub is_integrated: bool,
    pub vram_size: Option<u64>,
    pub driver: Option<String>,
    pub capabilities: GpuDriverCapabilities,
}

impl GpuDevice {
    /// The Bus:Device.Function address.
    pub fn bdf(&self) -> (r: &str)
        ensures
            r@ == self.bdf@,
    {
        self.bdf.as_str()
    }

    /// The vendor.
    pub fn vendor(&self) -> (r: &GpuVendor)
        ensures
            r == self.vendor,
    {
        &self.vendor
    }

    /// The model name.
    pub fn model_name(&self) -> (r: &str)
        ensures
            r@ == self.model_name@,
    {
        self.model_name.as_str()
    }
}

/// A device class that names a GPU.
pub open spec fn spec_is_gpu(class: Seq<char>) -> bool {
    has_sub(class, "VGA"@) || has_sub(class, "display controller"@) || has_sub(
        class,
        "3D controller"@,
    )
}

/// Whether a PCI device is a GPU, by its class string.
pub fn is_gpu_device(device: &PciDevice) -> (r: bool)
    ensures
        r == spec_is_gpu(device.class@),
{
    let cls = chars_vec(device.class.as_str());
    contains_sub(&cls, &chars_vec("VGA")) || contains_sub(&cls, &chars_vec("display controller"))
        || contains_sub(&cls, &chars_vec("3D controller"))
}

/// What the vendor decision means: the PCI vendor id decides when known,
/// else the vendor name's spelling, else the name is carried as-is.
pub open spec fn vendor_matches(r: GpuVendor, vendor_id: Seq<char>, vendor_name: Seq<char>) -> bool {
    if vendor_id == "1002"@ {
        r == GpuVendor::AMD
    } else if vendor_id == "10de"@ {
        r == GpuVendor::NVIDIA
    } else if vendor_id == "8086"@ {
        r == GpuVendor::Intel
    } else {
        let low = lower(vendor_name);
        if has_sub(low, "amd"@) || has_sub(low, "ati"@) {
            r == GpuVendor::AMD
        } else if has_sub(low, "nvidia"@) {
            r == GpuVendor::NVIDIA
        } else if has_sub(low, "intel"@) {
            r == GpuVendor::Intel
        } else {
            r matches GpuVendor::Other(s) && s@ == vendor_name
        }
    }
}

/// Determines the vendor from the vendor id, falling back to the name.
pub fn detect_gpu_vendor(device: &PciDevice) -> (r: GpuVendor)
    ensures
        vendor_matches(r, device.vendor_id@, device.vendor_name@),
{
    let vid = chars_vec(device.vendor_id.as_str());
    if eq_chars(&vid, &chars_vec("1002")) {
        return GpuVendor::AMD;
    }
    if eq_chars(&vid, &chars_vec("10de")) {
        return GpuVendor::NVIDIA;
    }
    if eq_chars(&vid, &chars_vec("8086")) {
        return GpuVendor::Intel;
    }
    let name = chars_vec(device.vendor_name.as_str());
    let low = lower_chars(&name);
    if contains_sub(&low, &chars_vec("amd")) || contains_sub(&low, &chars_vec("ati")) {
        GpuVendor::AMD
    } else if contains_sub(&low, &chars_vec("nvidia")) {
        GpuVendor::NVIDIA
    } else if contains_sub(&low, &chars_vec("intel")) {
        GpuVendor::Intel
    } else {
        GpuVendor::Other(device.vendor_name.clone())
    }
}

/// A hexadecimal digit's value, or none.
pub open spec fn hex_digit_val(c: char) -> Option<int> {
    if '0' <= c <= '9' {
        Some(c as int - '0' as int)
    } else if 'a' <= c <= 'f' {
        Some(c as int - 'a' as int + 10)
    } else if 'A' <= c <= 'F' {
        Some(c as int - 'A' as int + 10)
    } else {
        None
    }
}

/// The value of a hex-digit string.
pub open spec fn hex_val(s: Seq<char>) -> int
    decreases s.len(),
{
    if s.len() == 0 {
        0
    } else {
        hex_val(s.drop_last()) * 16 + (match hex_digit_val(s.last()) {
            Some(d) => d,
            None => 0,
        })
    }
}

/// A hex parse: all-hex, nonempty text whose value fits 32 bits.
pub open spec fn spec_parse_hex_u32(s: Seq<char>) -> Option<u32> {
    if s.len() > 0 && (forall|k: int| 0 <= k < s.len() ==> hex_digit_val(#[trigger] s[k]) is Some)
        && hex_val(s) <= u32::MAX {
        Some(hex_val(s) as u32)
    } else {
        None
    }
}

proof fn lemma_hex_val_nonneg(s: Seq<char>)
    requires
        forall|k: int| 0 <= k < s.len() ==> hex_digit_val(#[trigger] s[k]) is Some,
    ensures
        hex_val(s) >= 0,
    decreases s.len(),
{
    if s.len() > 0 {
        assert(forall|k: int| 0 <= k < s.len() - 1 ==> s.drop_last()[k] == s[k]);
        lemma_hex_val_nonneg(s.drop_last());
    }
}

proof fn lemma_hex_val_grows(s: Seq<char>, i: int, j: int)
    requires
        0 <= i <= j <= s.len(),
        forall|k: int| 0 <= k < s.len() ==> hex_digit_val(#[trigger] s[k]) is Some,
    ensures
        hex_val(s.take(i)) <= hex_val(s.take(j)),
    decreases j - i,
{
    if i < j {
        lemma_hex_val_grows(s, i, j - 1);
        assert(s.take(j).drop_last() =~= s.take(j - 1));
        assert(forall|k: int| 0 <= k < j - 1 ==> s.take(j - 1)[k] == s[k]);
        lemma_hex_val_nonneg(s.take(j - 1));
        assert(s.take(j).last() == s[j - 1]);
    }
}

/// Parses a hexadecimal number that must fit in 32 bits.
pub fn parse_hex_u32(v: &Vec<char>) -> (r: Option<u32>)
    ensures
        r == spec_parse_hex_u32(v@),
{
    if v.len() == 0 {
        return None;
    }
    let mut acc: u64 = 0;
    let mut i: usize = 0;
    proof {
        assert(v@.take(0) =~= Seq::<char>::empty());
    }
    while i < v.len()
        invariant
            i <= v.len(),
            forall|k: int| 0 <= k < i ==> hex_digit_val(#[trigger] v@[k]) is Some,
            acc == hex_val(v@.take(i as int)),
            acc <= u32::MAX as u64,
        decreases v.len() - i,
    {
        let c = v[i];
        let d: u32 = if '0' <= c && c <= '9' {
            (c as u32) - ('0' as u32)
        } else if 'a' <= c && c <= 'f' {
            (c as u32) - ('a' as u32) + 10
        } else if 'A' <= c && c <= 'F' {
            (c as u32) - ('A' as u32) + 10
        } else {
            return None;
        };
        proof {
            assert(hex_digit_val(v@[i as int]) == Some(d as int));
            assert(v@.take(i + 1 as int).drop_last() =~= v@.take(i as int));
            assert(v@.take(i + 1 as int).last() == v@[i as int]);
        }
        acc = acc * 16 + (d as u64);
        if acc > 0xFFFF_FFFFu64 {
            proof {
                assert(hex_val(v@.take(i + 1 as int)) > u32::MAX);
                if forall|k: int| 0 <= k < v@.len() ==> hex_digit_val(#[trigger] v@[k]) is Some {
                    lemma_hex_val_grows(v@, i + 1, v@.len() as int);
                    assert(v@.take(v@.len() as int) =~= v@);
                }
            }
            return None;
        }
        i = i + 1;
    }
    proof {
        assert(v@.take(v@.len() as int) =~= v@);
    }
    Some(acc as u32)
}

/// The device id's numeric value, a failed parse counting as zero, as
/// the capability heuristics read it.
pub open spec fn device_id_val(s: Seq<char>) -> u32 {
    match spec_parse_hex_u32(s) {
        Some(v) => v,
        None => 0,
    }
}

/// What the capability decision means for each vendor.
pub open spec fn caps_match(
    r: GpuDriverCapabilities,
    vendor: GpuVendor,
    device_id: Seq<char>,
    device_name: Seq<char>,
) -> bool {
    !r.requires_acs_override && !r.supports_fbc && match vendor {
        GpuVendor::AMD => {
            &&& r.has_reset_bug == (device_id_val(device_id) < 0x7000)
            &&& r.supports_reset == !r.has_reset_bug
            &&& r.supports_vbios_loading
            &&& !r.supports_gvt
            &&& !r.needs_code_43_workaround
        },
        GpuVendor::NVIDIA => {
            &&& r.needs_code_43_workaround
            &&& r.supports_reset
            &&& r.supports_vbios_loading
            &&& !r.has_reset_bug
            &&& !r.supports_gvt
        },
        GpuVendor::Intel => {
            &&& r.supports_gvt == (has_sub(lower(device_name), "hd graphics"@) || has_sub(
                lower(device_name),
                "uhd graphics"@,
            ))
            &&& r.supports_reset == has_sub(lower(device_name), "arc"@)
            &&& r.supports_vbios_loading == has_sub(lower(device_name), "arc"@)
            &&& !r.has_reset_bug
            &&& !r.needs_code_43_workaround
        },
        GpuVendor::Other(_) => {
            &&& !r.supports_reset
            &&& !r.supports_vbios_loading
            &&& !r.supports_gvt
            &&& !r.has_reset_bug
            &&& !r.needs_code_43_workaround
        },
    }
}

/// The capability heuristics per vendor: AMD cards below the RDNA id
/// range carry the reset bug, NVIDIA needs the Code 43 workaround,
/// Intel HD/UHD parts offer GVT-g and Arc parts behave like discrete
/// cards.
pub fn detect_gpu_capabilities(device: &PciDevice, vendor: &GpuVendor) -> (r: GpuDriverCapabilities)
    ensures
        caps_match(r, *vendor, device.device_id@, device.device_name@),
{
    let mut capabilities = GpuDriverCapabilities::default();
    match vendor {
        GpuVendor::AMD => {
            let idc = chars_vec(device.device_id.as_str());
            let device_id = match parse_hex_u32(&idc) {
                Some(v) => v,
                None => 0,
            };
            if device_id < 0x7000 {
                capabilities.has_reset_bug = true;
            }
            capabilities.supports_reset = !capabilities.has_reset_bug;
            capabilities.supports_vbios_loading = true;
        },
        GpuVendor::NVIDIA => {
            capabilities.needs_code_43_workaround = true;
            capabilities.supports_reset = true;
            capabilities.supports_vbios_loading = true;
        },
        GpuVendor::Intel => {
            let name = chars_vec(device.device_name.as_str());
            let low = lower_chars(&name);
            if contains_sub(&low, &chars_vec("hd graphics")) || contains_sub(
                &low,
                &chars_vec("uhd graphics"),
            ) {
                capabilities.supports_gvt = true;
            }
            if contains_sub(&low, &chars_vec("arc")) {
                capabilities.supports_reset = true;
                capabilities.supports_vbios_loading = true;
            }
        },
        GpuVendor::Other(_) => {
            capabilities.supports_reset = false;
            capabilities.supports_vbios_loading = false;
        },
    }
    capabilities
}

/// Whether a GPU sits on the CPU die: most Intel parts but Arc, and AMD
/// Radeon Vega/Graphics APUs.
pub open spec fn spec_is_integrated(vendor: GpuVendor, device_name: Seq<char>) -> bool {
    match vendor {
        GpuVendor::Intel => !has_sub(lower(device_name), "arc"@),
        GpuVendor::AMD => has_sub(lower(device_name), "radeon"@) && (has_sub(
            lower(device_name),
            "vega"@,
        ) || has_sub(lower(device_name), "graphics"@)),
        _ => false,
    }
}

pub fn is_integrated_gpu(device: &PciDevice, vendor: &GpuVendor) -> (r: bool)
    ensures
        r == spec_is_integrated(*vendor, device.device_name@),
{
    let name = chars_vec(device.device_name.as_str());
    let low = lower_chars(&name);
    match vendor {
        GpuVendor::Intel => !contains_sub(&low, &chars_vec("arc")),
        GpuVendor::AMD => contains_sub(&low, &chars_vec("radeon")) && (contains_sub(
            &low,
            &chars_vec("vega"),
        ) || contains_sub(&low, &chars_vec("graphics"))),
        GpuVendor::NVIDIA => false,
        GpuVendor::Other(_) => false,
    }
}

/// VRAM size detection is not wired to a source yet and reports nothing.
pub fn detect_vram_size(_device: &PciDevice) -> (r: Option<u64>)
    ensures
        r is None,
{
    None
}

/// How a classified GPU relates to the PCI device it came from.
pub open spec fn gpu_matches(g: GpuDevice, d: PciDevice) -> bool {
    &&& g.bdf@ == d.bdf@
    &&& g.vendor_id@ == d.vendor_id@
    &&& g.device_id@ == d.device_id@
    &&& vendor_matches(g.vendor, d.vendor_id@, d.vendor_name@)
    &&& g.model_name@ == d.device_name@
    &&& g.is_integrated == spec_is_integrated(g.vendor, d.device_name@)
    &&& g.vram_size is None
    &&& crate::state::opt_view(g.driver) == crate::state::opt_view(d.driver)
    &&& caps_match(g.capabilities, g.vendor, d.device_id@, d.device_name@)
}

/// Classifies one PCI device as a GPU.
pub fn pci_to_gpu_device(device: &PciDevice) -> (r: GpuDevice)
    ensures
        gpu_matches(r, *device),
{
    let vendor = detect_gpu_vendor(device);
    let capabilities = detect_gpu_capabilities(device, &vendor);
    let is_integrated = is_integrated_gpu(device, &vendor);
    let vram_size = detect_vram_size(device);
    GpuDevice {
        bdf: device.bdf.clone(),
        vendor_id: device.vendor_id.clone(),
        device_id: device.device_id.clone(),
        vendor,
        model_name: device.device_name.clone(),
        is_integrated,
        vram_size,
        driver: clone_opt_str(&device.driver),
        capabilities,
    }
}

fn clone_opt_str(o: &Option<String>) -> (r: Option<String>)
    ensures
        crate::state::opt_view(r) == crate::state::opt_view(*o),
{
    match o {
        None => None,
        Some(s) => Some(s.clone()),
    }
}

/// `g` is the classification of some GPU among `ds`.
pub open spec fn is_classified(g: GpuDevice, ds: Seq<PciDevice>) -> bool {
    exists|j: int| 0 <= j < ds.len() && spec_is_gpu((#[trigger] ds[j]).class@) && gpu_matches(
        g,
        ds[j],
    )
}

/// Some element of `rs` classifies the device `d`.
pub open spec fn has_classified(rs: Seq<GpuDevice>, d: PciDevice) -> bool {
    exists|k: int| 0 <= k < rs.len() && gpu_matches(#[trigger] rs[k], d)
}

/// Classifies every GPU among the given PCI devices, in order: each
/// result classifies a GPU of the input, and every GPU of the input is
/// classified.
pub fn detect_gpus(devices: &Vec<PciDevice>) -> (r: Vec<GpuDevice>)
    ensures
        forall|k: int| 0 <= k < r@.len() ==> is_classified(#[trigger] r@[k], devices@),
        forall|j: int| 0 <= j < devices@.len() && spec_is_gpu((#[trigger] devices@[j]).class@)
            ==> has_classified(r@, devices@[j]),
{
    let mut out: Vec<GpuDevice> = Vec::new();
    let mut i: usize = 0;
    while i < devices.len()
        invariant
            i <= devices.len(),
            forall|k: int| 0 <= k < out@.len() ==> is_classified(#[trigger] out@[k], devices@),
            forall|j: int| 0 <= j < i && spec_is_gpu((#[trigger] devices@[j]).class@)
                ==> has_classified(out@, devices@[j]),
        decreases devices.len() - i,
    {
        let ghost oldout = out@;
        let gpu = is_gpu_device(&devices[i]);
        if gpu {
            let g = pci_to_gpu_device(&devices[i]);
            out.push(g);
            proof {
                assert(gpu_matches(out@[out@.len() - 1], devices@[i as int]));
                assert(is_classified(out@[out@.len() - 1], devices@));
                assert forall|k: int| 0 <= k < out@.len() implies is_classified(
                    #[trigger] out@[k],
                    devices@,
                ) by {
                    if k < oldout.len() {
                        assert(out@[k] == oldout[k]);
                        assert(is_classified(oldout[k], devices@));
                    }
                }
                assert forall|j: int| 0 <= j < i + 1 && spec_is_gpu(
                    (#[trigger] devices@[j]).class@,
                ) implies has_classified(out@, devices@[j]) by {
                    if j < i {
                        assert(has_classified(oldout, devices@[j]));
                        let k = choose|k: int| 0 <= k < oldout.len() && gpu_matches(
                            #[trigger] oldout[k],
                            devices@[j],
                        );
                        assert(out@[k] == oldout[k]);
                        assert(gpu_matches(out@[k], devices@[j]));
                    } else {
                        assert(gpu_matches(out@[out@.len() - 1], devices@[j]));
                    }
                }
            }
        } else {
            proof {
                assert(!spec_is_gpu(devices@[i as int].class@));
                assert forall|j: int| 0 <= j < i + 1 && spec_is_gpu(
                    (#[trigger] devices@[j]).class@,
                ) implies has_classified(out@, devices@[j]) by {
                    assert(j < i);
                }
            }
        }
        i = i + 1;
    }
    out
}


/// The class label for a PCI class code, as the classifier reads it: the
/// display classes get their names, anything else keeps its code.
pub fn class_label(class_code: &str) -> (r: String)
    ensures
        match_at(class_code@, 0, "0300"@) ==> r@ == "VGA compatible controller"@,
        match_at(class_code@, 0, "0380"@) && !match_at(class_code@, 0, "0300"@) ==> r@
            == "Display controller"@,
        match_at(class_code@, 0, "0302"@) && !match_at(class_code@, 0, "0300"@) && !match_at(
            class_code@,
            0,
            "0380"@,
        ) ==> r@ == "3D controller"@,
        !match_at(class_code@, 0, "0300"@) && !match_at(class_code@, 0, "0380"@) && !match_at(
            class_code@,
            0,
            "0302"@,
        ) ==> r@ == class_code@,
{
    let cs = chars_vec(class_code);
    if match_at_x(&cs, 0, &chars_vec("0300")) {
        String::from_str("VGA compatible controller")
    } else if match_at_x(&cs, 0, &chars_vec("0380")) {
        String::from_str("Display controller")
    } else if match_at_x(&cs, 0, &chars_vec("0302")) {
        String::from_str("3D controller")
    } else {
        String::from_str(class_code)
    }
}


/// One partially read device section: the slot, class, vendor and device
/// texts seen so far.
pub open spec fn no_fields() -> (Seq<char>, Seq<char>, Seq<char>, Seq<char>) {
    (Seq::empty(), Seq::empty(), Seq::empty(), Seq::empty())
}

/// One `Key: value` line folded into the section's fields; a line with
/// no separator, or an unknown key, changes nothing.
pub open spec fn upd_fields(
    f: (Seq<char>, Seq<char>, Seq<char>, Seq<char>),
    line: Seq<char>,
) -> (Seq<char>, Seq<char>, Seq<char>, Seq<char>) {
    let p = find_from(line, 0, ':');
    if p >= line.len() {
        f
    } else {
        let key = spec_trim(line.take(p));
        let val = spec_trim(line.skip(p + 1));
        if key == "Slot"@ {
            (val, f.1, f.2, f.3)
        } else if key == "Class"@ {
            (f.0, val, f.2, f.3)
        } else if key == "Vendor"@ {
            (f.0, f.1, val, f.3)
        } else if key == "Device"@ {
            (f.0, f.1, f.2, val)
        } else {
            f
        }
    }
}

/// A finished section counts only when a slot was named.
pub open spec fn close_section(f: (Seq<char>, Seq<char>, Seq<char>, Seq<char>)) -> Seq<
    (Seq<char>, Seq<char>, Seq<char>, Seq<char>),
> {
    if f.0.len() > 0 {
        seq![f]
    } else {
        Seq::empty()
    }
}

/// The device sections of the listing: blank lines separate sections,
/// each section's fields folded line by line.
pub open spec fn sections(
    lines: Seq<Seq<char>>,
    i: int,
    f: (Seq<char>, Seq<char>, Seq<char>, Seq<char>),
) -> Seq<(Seq<char>, Seq<char>, Seq<char>, Seq<char>)>
    decreases lines.len() - i,
{
    if !(0 <= i < lines.len()) {
        close_section(f)
    } else if lines[i].len() == 0 {
        close_section(f) + sections(lines, i + 1, no_fields())
    } else {
        sections(lines, i + 1, upd_fields(f, lines[i]))
    }
}

/// The fields a built device carries.
pub open spec fn fields_of(d: PciDevice) -> (Seq<char>, Seq<char>, Seq<char>, Seq<char>) {
    (d.bdf@, d.class@, d.vendor_name@, d.device_name@)
}

/// How a built device relates to its section: the names are carried
/// over, the vendor id is guessed from the vendor name, the device id
/// stays unresolved, no driver is known, and the sysfs location is
/// derived from the slot.
pub open spec fn device_from(d: PciDevice, f: (Seq<char>, Seq<char>, Seq<char>, Seq<char>)) -> bool {
    &&& fields_of(d) == f
    &&& d.device_id@ == "0000"@
    &&& d.vendor_id@ == if has_sub(f.2, "NVIDIA"@) {
        "10de"@
    } else if has_sub(f.2, "AMD"@) || has_sub(f.2, "ATI"@) {
        "1002"@
    } else if has_sub(f.2, "Intel"@) {
        "8086"@
    } else {
        "0000"@
    }
    &&& d.driver is None
    &&& d.sysfs_path@ == "/sys/bus/pci/devices/"@ + slashed(f.0)
}

/// Builds the device a finished section names.
fn build_device(bdf: Vec<char>, class: Vec<char>, vendor: Vec<char>, device: Vec<char>) -> (r:
    PciDevice)
    ensures
        device_from(r, (bdf@, class@, vendor@, device@)),
{
    let vendor_id: String = if contains_sub(&vendor, &chars_vec("NVIDIA")) {
        String::from_str("10de")
    } else if contains_sub(&vendor, &chars_vec("AMD")) || contains_sub(&vendor, &chars_vec("ATI")) {
        String::from_str("1002")
    } else if contains_sub(&vendor, &chars_vec("Intel")) {
        String::from_str("8086")
    } else {
        String::from_str("0000")
    };
    let bdfs = chars_to_string(&bdf);
    let mut sysfs: Vec<char> = Vec::new();
    append_str(&mut sysfs, "/sys/bus/pci/devices/");
    let sl = slashed_x(&bdfs);
    append_chars(&mut sysfs, &sl);
    PciDevice {
        bdf: bdfs,
        vendor_id,
        device_id: String::from_str("0000"),
        class: chars_to_string(&class),
        vendor_name: chars_to_string(&vendor),
        device_name: chars_to_string(&device),
        driver: None,
        sysfs_path: chars_to_string(&sysfs),
    }
}

/// Parses a PCI listing in machine-readable, key-per-line form: blank
/// lines separate devices, and the `Slot`, `Class`, `Vendor` and
/// `Device` keys fill each device's fields. The numeric ids and the
/// bound driver are not part of the listing; the slot's sysfs location
/// is derived.
pub fn get_pci_devices(listing: &str) -> (r: Vec<PciDevice>)
    ensures
        r@.map_values(|d: PciDevice| fields_of(d)) == sections(split_nl(listing@), 0, no_fields()),
        forall|k: int| 0 <= k < r@.len() ==> device_from(
            #[trigger] r@[k],
            fields_of(r@[k]),
        ),
{
    let cs = chars_vec(listing);
    let lines = split_lines_chars(&cs);
    let ghost lm = lines@.map_values(|t: Vec<char>| t@);
    let mut out: Vec<PciDevice> = Vec::new();
    let mut bdf: Vec<char> = Vec::new();
    let mut class: Vec<char> = Vec::new();
    let mut vendor: Vec<char> = Vec::new();
    let mut device: Vec<char> = Vec::new();
    let mut i: usize = 0;
    proof {
        assert(out@.map_values(|d: PciDevice| fields_of(d)) + sections(
            lm,
            0,
            (bdf@, class@, vendor@, device@),
        ) =~= sections(lm, 0, no_fields()));
    }
    while i < lines.len()
        invariant
            i <= lines.len(),
            lm == lines@.map_values(|t: Vec<char>| t@),
            out@.map_values(|d: PciDevice| fields_of(d)) + sections(
                lm,
                i as int,
                (bdf@, class@, vendor@, device@),
            ) =~= sections(lm, 0, no_fields()),
            forall|k: int| 0 <= k < out@.len() ==> device_from(
                #[trigger] out@[k],
                fields_of(out@[k]),
            ),
        decreases lines.len() - i,
    {
        let ghost om = out@.map_values(|d: PciDevice| fields_of(d));
        let ghost f = (bdf@, class@, vendor@, device@);
        proof {
            assert(lm[i as int] == lines@[i as int]@);
        }
        if lines[i].len() == 0 {
            let ghost rest = sections(lm, i + 1 as int, no_fields());
            proof {
                assert(sections(lm, i as int, f) == close_section(f) + rest);
                assert(om + (close_section(f) + rest) =~= (om + close_section(f)) + rest);
            }
            if bdf.len() > 0 {
                let d = build_device(bdf, class, vendor, device);
                proof {
                    assert(fields_of(d) == f);
                }
                out.push(d);
                proof {
                    assert(out@.map_values(|x: PciDevice| fields_of(x)) =~= om.push(f));
                    assert(om.push(f) =~= om + close_section(f));
                }
            } else {
                proof {
                    assert(close_section(f) =~= Seq::<
                        (Seq<char>, Seq<char>, Seq<char>, Seq<char>),
                    >::empty());
                    assert(om + close_section(f) =~= om);
                }
            }
            bdf = Vec::new();
            class = Vec::new();
            vendor = Vec::new();
            device = Vec::new();
            proof {
                assert((bdf@, class@, vendor@, device@) == no_fields());
            }
        } else {
            let line = &lines[i];
            let p = find_from_x(line, 0, ':');
            if p < line.len() {
                let mut keyv: Vec<char> = Vec::new();
                let mut k: usize = 0;
                while k < p
                    invariant
                        k <= p <= line@.len(),
                        keyv@ == line@.take(p as int).take(k as int),
                    decreases p - k,
                {
                    keyv.push(line[k]);
                    proof {
                        assert(keyv@ =~= line@.take(p as int).take(k + 1 as int));
                    }
                    k = k + 1;
                }
                proof {
                    assert(keyv@ =~= line@.take(p as int));
                }
                let key = trim_chars(&keyv);
                let mut valv: Vec<char> = Vec::new();
                let mut k2: usize = p + 1;
                while k2 < line.len()
                    invariant
                        p + 1 <= k2 <= line@.len(),
                        valv@ == line@.subrange(p + 1 as int, k2 as int),
                    decreases line.len() - k2,
                {
                    valv.push(line[k2]);
                    proof {
                        assert(valv@ =~= line@.subrange(p + 1 as int, k2 + 1 as int));
                    }
                    k2 = k2 + 1;
                }
                proof {
                    assert(valv@ =~= line@.skip(p + 1 as int));
                }
                let val = trim_chars(&valv);
                let ks = chars_to_string(&key);
                if ks == String::from_str("Slot") {
                    bdf = val;
                } else if ks == String::from_str("Class") {
                    class = val;
                } else if ks == String::from_str("Vendor") {
                    vendor = val;
                } else if ks == String::from_str("Device") {
                    device = val;
                }
            }
            proof {
                assert(sections(lm, i as int, f) == sections(
                    lm,
                    i + 1 as int,
                    upd_fields(f, lm[i as int]),
                ));
                assert((bdf@, class@, vendor@, device@) == upd_fields(f, lm[i as int]));
            }
        }
        i = i + 1;
    }
    let ghost om = out@.map_values(|d: PciDevice| fields_of(d));
    let ghost f = (bdf@, class@, vendor@, device@);
    proof {
        assert(sections(lm, i as int, f) == close_section(f));
    }
    if bdf.len() > 0 {
        let d = build_device(bdf, class, vendor, device);
        proof {
            assert(fields_of(d) == f);
        }
        out.push(d);
        proof {
            assert(out@.map_values(|x: PciDevice| fields_of(x)) =~= om.push(f));
            assert(om.push(f) =~= om + close_section(f));
        }
    } else {
        proof {
            assert(close_section(f) =~= Seq::<(Seq<char>, Seq<char>, Seq<char>, Seq<char>)>::empty());
            assert(om + close_section(f) =~= om);
        }
    }
    out
}

} // verus!
