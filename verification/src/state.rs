//! The change log: a durable, ordered record of every confirmed mutation,
//! serialized as one JSON document, with reverse-order rollback planning
//! and a shell-script fallback.
//!
//! The document codec is verified: parsing a rendered log yields the
//! identical sequence of changes.

use vstd::prelude::*;
use vstd::string::*;
use crate::strutil::{chars_vec, chars_to_string, append_chars, append_str};
use crate::strutil::{match_at, match_at_x};
use crate::params::eq_chars;
use crate::errors::VfioError;

verus! {

/// One confirmed mutation of the host, recorded the moment it is applied.
#[derive(Debug, Clone, PartialEq)]
pub enum Change {
    /// A file was modified; its previous bytes sit at `backup_path`.
    FileModified { path: String, backup_path: String },
    /// A kernel parameter was added or replaced under the named bootloader.
    KernelParamAdded { parameter: String, bootloader: String },
    /// A kernel parameter was removed; `original_value` may allow a restore.
    KernelParamRemoved { parameter: String, bootloader: String, original_value: Option<String> },
    /// A module-load configuration file was written.
    ModuleLoaded { name: String, config_path: String, backup_path: Option<String> },
    /// A device was bound to a new driver.
    DriverBound { device_bdf: String, new_driver: String, original_driver: Option<String> },
    /// A device was unbound from its driver.
    DriverUnbound { device_bdf: String, original_driver: Option<String> },
}

/// The mathematical form of a `Change`.
pub enum ChangeV {
    FileModified { path: Seq<char>, backup_path: Seq<char> },
    KernelParamAdded { parameter: Seq<char>, bootloader: Seq<char> },
    KernelParamRemoved {
        parameter: Seq<char>,
        bootloader: Seq<char>,
        original_value: Option<Seq<char>>,
    },
    ModuleLoaded { name: Seq<char>, config_path: Seq<char>, backup_path: Option<Seq<char>> },
    DriverBound {
        device_bdf: Seq<char>,
        new_driver: Seq<char>,
        original_driver: Option<Seq<char>>,
    },
    DriverUnbound { device_bdf: Seq<char>, original_driver: Option<Seq<char>> },
}

pub open spec fn opt_view(o: Option<String>) -> Option<Seq<char>> {
    match o {
        Some(s) => Some(s@),
        None => None,
    }
}

impl View for Change {
    type V = ChangeV;

    open spec fn view(&self) -> ChangeV {
        match self {
            Change::FileModified { path, backup_path } => ChangeV::FileModified {
                path: path@,
                backup_path: backup_path@,
            },
            Change::KernelParamAdded { parameter, bootloader } => ChangeV::KernelParamAdded {
                parameter: parameter@,
                bootloader: bootloader@,
            },
            Change::KernelParamRemoved { parameter, bootloader, original_value } =>
                ChangeV::KernelParamRemoved {
                parameter: parameter@,
                bootloader: bootloader@,
                original_value: opt_view(*original_value),
            },
            Change::ModuleLoaded { name, config_path, backup_path } => ChangeV::ModuleLoaded {
                name: name@,
                config_path: config_path@,
                backup_path: opt_view(*backup_path),
            },
            Change::DriverBound { device_bdf, new_driver, original_driver } =>
                ChangeV::DriverBound {
                device_bdf: device_bdf@,
                new_driver: new_driver@,
                original_driver: opt_view(*original_driver),
            },
            Change::DriverUnbound { device_bdf, original_driver } => ChangeV::DriverUnbound {
                device_bdf: device_bdf@,
                original_driver: opt_view(*original_driver),
            },
        }
    }
}

// --- rendering ---

/// The escaped form of one character inside a JSON string.
pub open spec fn esc_char(c: char) -> Seq<char> {
    if c == '\\' {
        seq!['\\', '\\']
    } else if c == '"' {
        seq!['\\', '"']
    } else if c == '\n' {
        seq!['\\', 'n']
    } else if c == '\r' {
        seq!['\\', 'r']
    } else if c == '\t' {
        seq!['\\', 't']
    } else {
        seq![c]
    }
}

/// The escaped body of a JSON string.
pub open spec fn esc(s: Seq<char>) -> Seq<char>
    decreases s.len(),
{
    if s.len() == 0 {
        Seq::empty()
    } else {
        esc_char(s[0]) + esc(s.drop_first())
    }
}

/// A JSON string: quoted, escaped text.
pub open spec fn jstr(s: Seq<char>) -> Seq<char> {
    seq!['"'] + esc(s) + seq!['"']
}

/// An optional JSON string: `null` or the string.
pub open spec fn jopt(o: Option<Seq<char>>) -> Seq<char> {
    match o {
        None => "null"@,
        Some(s) => jstr(s),
    }
}

/// One change as a JSON object.
pub open spec fn render_change(c: ChangeV) -> Seq<char> {
    match c {
        ChangeV::FileModified { path, backup_path } => seq!['{'] + "\"type\":"@
            + jstr("file_modified"@) + ",\"path\":"@ + jstr(path) + ",\"backup_path\":"@
            + jstr(backup_path) + seq!['}'],
        ChangeV::KernelParamAdded { parameter, bootloader } => seq!['{'] + "\"type\":"@
            + jstr("kernel_param_added"@) + ",\"parameter\":"@ + jstr(parameter)
            + ",\"bootloader\":"@ + jstr(bootloader) + seq!['}'],
        ChangeV::KernelParamRemoved { parameter, bootloader, original_value } => seq!['{']
            + "\"type\":"@ + jstr("kernel_param_removed"@) + ",\"parameter\":"@ + jstr(parameter)
            + ",\"bootloader\":"@ + jstr(bootloader) + ",\"original_value\":"@
            + jopt(original_value) + seq!['}'],
        ChangeV::ModuleLoaded { name, config_path, backup_path } => seq!['{'] + "\"type\":"@
            + jstr("module_loaded"@) + ",\"name\":"@ + jstr(name) + ",\"config_path\":"@
            + jstr(config_path) + ",\"backup_path\":"@ + jopt(backup_path) + seq!['}'],
        ChangeV::DriverBound { device_bdf, new_driver, original_driver } => seq!['{']
            + "\"type\":"@ + jstr("driver_bound"@) + ",\"device_bdf\":"@ + jstr(device_bdf)
            + ",\"new_driver\":"@ + jstr(new_driver) + ",\"original_driver\":"@
            + jopt(original_driver) + seq!['}'],
        ChangeV::DriverUnbound { device_bdf, original_driver } => seq!['{'] + "\"type\":"@
            + jstr("driver_unbound"@) + ",\"device_bdf\":"@ + jstr(device_bdf)
            + ",\"original_driver\":"@ + jopt(original_driver) + seq!['}'],
    }
}

/// The comma-joined change objects.
pub open spec fn render_items(cs: Seq<ChangeV>) -> Seq<char>
    decreases cs.len(),
{
    if cs.len() == 0 {
        Seq::empty()
    } else if cs.len() == 1 {
        render_change(cs[0])
    } else {
        render_change(cs[0]) + seq![','] + render_items(cs.drop_first())
    }
}

/// The whole log as one JSON array.
pub open spec fn render_log(cs: Seq<ChangeV>) -> Seq<char> {
    seq!['['] + render_items(cs) + seq![']']
}

/// Appends the escaped body of one string.
fn push_esc(out: &mut Vec<char>, s: &str)
    ensures
        final(out)@ == old(out)@ + esc(s@),
{
    let cs = chars_vec(s);
    let ghost g = out@;
    let mut i: usize = 0;
    proof {
        assert(cs@.take(0) =~= Seq::<char>::empty());
        assert(esc(cs@.take(0)) == Seq::<char>::empty());
        assert(g + esc(cs@.take(0)) =~= g);
    }
    while i < cs.len()
        invariant
            i <= cs.len(),
            cs@ == s@,
            out@ == g + esc(cs@.take(i as int)),
        decreases cs.len() - i,
    {
        let c = cs[i];
        proof {
            lemma_esc_push(cs@.take(i as int), c);
            assert(cs@.take(i as int).push(c) =~= cs@.take(i + 1 as int));
        }
        let ghost g2 = out@;
        if c == '\\' {
            out.push('\\');
            out.push('\\');
        } else if c == '"' {
            out.push('\\');
            out.push('"');
        } else if c == '\n' {
            out.push('\\');
            out.push('n');
        } else if c == '\r' {
            out.push('\\');
            out.push('r');
        } else if c == '\t' {
            out.push('\\');
            out.push('t');
        } else {
            out.push(c);
        }
        proof {
            assert(out@ =~= g2 + esc_char(c));
            assert(g2 + esc_char(c) =~= g + (esc(cs@.take(i as int)) + esc_char(c)));
        }
        i = i + 1;
    }
    proof {
        assert(cs@.take(cs@.len() as int) =~= cs@);
    }
}

/// Escaping one more character extends the escaped text.
proof fn lemma_esc_push(s: Seq<char>, c: char)
    ensures
        esc(s.push(c)) == esc(s) + esc_char(c),
    decreases s.len(),
{
    if s.len() == 0 {
        assert(s.push(c).drop_first() =~= Seq::<char>::empty());
        assert(s.push(c)[0] == c);
        assert(esc(Seq::<char>::empty()) == Seq::<char>::empty());
        assert(esc_char(c) + esc(Seq::<char>::empty()) =~= esc_char(c));
        assert(esc(s) + esc_char(c) =~= esc_char(c));
    } else {
        assert(s.push(c)[0] == s[0]);
        assert(s.push(c).drop_first() =~= s.drop_first().push(c));
        lemma_esc_push(s.drop_first(), c);
        assert(esc_char(s[0]) + (esc(s.drop_first()) + esc_char(c))
            =~= (esc_char(s[0]) + esc(s.drop_first())) + esc_char(c));
    }
}

/// Appends one JSON string.
fn push_jstr(out: &mut Vec<char>, s: &str)
    ensures
        final(out)@ == old(out)@ + jstr(s@),
{
    let ghost g = out@;
    out.push('"');
    push_esc(out, s);
    out.push('"');
    proof {
        assert(out@ =~= g + jstr(s@));
    }
}

/// Appends one optional JSON string.
fn push_jopt(out: &mut Vec<char>, o: &Option<String>)
    ensures
        final(out)@ == old(out)@ + jopt(match o {
            Some(s) => Some(s@),
            None => None,
        }),
{
    match o {
        None => {
            append_str(out, "null");
        },
        Some(s) => {
            push_jstr(out, s.as_str());
        },
    }
}

/// Appends one rendered change object.
#[verifier::rlimit(100)]
fn push_change(out: &mut Vec<char>, c: &Change)
    ensures
        final(out)@ == old(out)@ + render_change(c@),
{
    let ghost g = out@;
    out.push('{');
    append_str(out, "\"type\":");
    match c {
        Change::FileModified { path, backup_path } => {
            push_jstr(out, "file_modified");
            append_str(out, ",\"path\":");
            push_jstr(out, path.as_str());
            append_str(out, ",\"backup_path\":");
            push_jstr(out, backup_path.as_str());
        },
        Change::KernelParamAdded { parameter, bootloader } => {
            push_jstr(out, "kernel_param_added");
            append_str(out, ",\"parameter\":");
            push_jstr(out, parameter.as_str());
            append_str(out, ",\"bootloader\":");
            push_jstr(out, bootloader.as_str());
        },
        Change::KernelParamRemoved { parameter, bootloader, original_value } => {
            push_jstr(out, "kernel_param_removed");
            append_str(out, ",\"parameter\":");
            push_jstr(out, parameter.as_str());
            append_str(out, ",\"bootloader\":");
            push_jstr(out, bootloader.as_str());
            append_str(out, ",\"original_value\":");
            push_jopt(out, original_value);
        },
        Change::ModuleLoaded { name, config_path, backup_path } => {
            push_jstr(out, "module_loaded");
            append_str(out, ",\"name\":");
            push_jstr(out, name.as_str());
            append_str(out, ",\"config_path\":");
            push_jstr(out, config_path.as_str());
            append_str(out, ",\"backup_path\":");
            push_jopt(out, backup_path);
        },
        Change::DriverBound { device_bdf, new_driver, original_driver } => {
            push_jstr(out, "driver_bound");
            append_str(out, ",\"device_bdf\":");
            push_jstr(out, device_bdf.as_str());
            append_str(out, ",\"new_driver\":");
            push_jstr(out, new_driver.as_str());
            append_str(out, ",\"original_driver\":");
            push_jopt(out, original_driver);
        },
        Change::DriverUnbound { device_bdf, original_driver } => {
            push_jstr(out, "driver_unbound");
            append_str(out, ",\"device_bdf\":");
            push_jstr(out, device_bdf.as_str());
            append_str(out, ",\"original_driver\":");
            push_jopt(out, original_driver);
        },
    }
    out.push('}');
    proof {
        assert(out@ =~= g + render_change(c@));
    }
}

/// Serializes a change list as the JSON log document.
pub fn render_log_doc(changes: &Vec<Change>) -> (r: String)
    ensures
        r@ == render_log(changes@.map_values(|c: Change| c@)),
{
    let ghost m = changes@.map_values(|c: Change| c@);
    let mut out: Vec<char> = Vec::new();
    out.push('[');
    let mut i: usize = 0;
    proof {
        assert(out@ =~= seq!['['] + render_items(m.take(0)));
    }
    while i < changes.len()
        invariant
            i <= changes.len(),
            m == changes@.map_values(|c: Change| c@),
            out@ == seq!['['] + render_items(m.take(i as int)),
        decreases changes.len() - i,
    {
        proof {
            lemma_render_items_push(m.take(i as int), m[i as int]);
            assert(m.take(i as int).push(m[i as int]) =~= m.take(i + 1 as int));
        }
        let ghost g = out@;
        if i > 0 {
            out.push(',');
        }
        push_change(&mut out, &changes[i]);
        proof {
            if i > 0 {
                assert(out@ =~= seq!['[']
                    + (render_items(m.take(i as int)) + seq![','] + render_change(m[i as int])));
            } else {
                assert(m.take(0) =~= Seq::<ChangeV>::empty());
                assert(out@ =~= seq!['['] + render_change(m[i as int]));
                assert(render_items(m.take(1)) == render_change(m.take(1)[0]));
                assert(m.take(1)[0] == m[0]);
            }
        }
        i = i + 1;
    }
    out.push(']');
    proof {
        assert(m.take(m.len() as int) =~= m);
        assert(out@ =~= render_log(m));
    }
    chars_to_string(&out)
}

/// Appending a change extends the comma-joined objects.
proof fn lemma_render_items_push(cs: Seq<ChangeV>, c: ChangeV)
    ensures
        render_items(cs.push(c)) == if cs.len() == 0 {
            render_change(c)
        } else {
            render_items(cs) + seq![','] + render_change(c)
        },
    decreases cs.len(),
{
    if cs.len() == 0 {
        assert(cs.push(c)[0] == c);
    } else {
        assert(cs.push(c)[0] == cs[0]);
        assert(cs.push(c).drop_first() =~= cs.drop_first().push(c));
        lemma_render_items_push(cs.drop_first(), c);
        if cs.len() == 1 {
            assert(render_items(cs.push(c))
                == render_change(cs[0]) + seq![','] + render_items(cs.drop_first().push(c)));
        } else {
            assert(render_change(cs[0]) + seq![',']
                + (render_items(cs.drop_first()) + seq![','] + render_change(c))
                =~= (render_change(cs[0]) + seq![','] + render_items(cs.drop_first()))
                    + seq![','] + render_change(c));
        }
    }
}


// --- parsing ---

/// The character an escape sequence stands for.
pub open spec fn unesc_char(c: char) -> Option<char> {
    if c == '\\' {
        Some('\\')
    } else if c == '"' {
        Some('"')
    } else if c == 'n' {
        Some('\n')
    } else if c == 'r' {
        Some('\r')
    } else if c == 't' {
        Some('\t')
    } else {
        None
    }
}

/// Consumes a JSON string body up to and including the closing quote.
pub open spec fn p_string_body(s: Seq<char>, i: int) -> Option<(Seq<char>, int)>
    decreases s.len() - i,
{
    if !(0 <= i < s.len()) {
        None
    } else if s[i] == '"' {
        Some((Seq::empty(), i + 1))
    } else if s[i] == '\\' {
        if i + 1 < s.len() {
            match unesc_char(s[i + 1]) {
                None => None,
                Some(ch) => match p_string_body(s, i + 2) {
                    None => None,
                    Some((rest, j)) => Some((seq![ch] + rest, j)),
                },
            }
        } else {
            None
        }
    } else {
        match p_string_body(s, i + 1) {
            None => None,
            Some((rest, j)) => Some((seq![s[i]] + rest, j)),
        }
    }
}

/// Consumes a quoted JSON string.
pub open spec fn p_string(s: Seq<char>, i: int) -> Option<(Seq<char>, int)> {
    if 0 <= i < s.len() && s[i] == '"' {
        p_string_body(s, i + 1)
    } else {
        None
    }
}

/// Consumes an exact literal.
pub open spec fn p_lit(s: Seq<char>, i: int, lit: Seq<char>) -> Option<int> {
    if match_at(s, i, lit) {
        Some(i + lit.len())
    } else {
        None
    }
}

/// Consumes `null` or a JSON string.
pub open spec fn p_opt(s: Seq<char>, i: int) -> Option<(Option<Seq<char>>, int)> {
    if match_at(s, i, "null"@) {
        Some((None, i + "null"@.len()))
    } else {
        match p_string(s, i) {
            None => None,
            Some((x, j)) => Some((Some(x), j)),
        }
    }
}

/// Consumes `lit1`, a string, `lit2`, a string, and the closing brace.
pub open spec fn p_fields2(s: Seq<char>, i: int, l1: Seq<char>, l2: Seq<char>) -> Option<
    ((Seq<char>, Seq<char>), int),
> {
    match p_lit(s, i, l1) {
        None => None,
        Some(j1) => match p_string(s, j1) {
            None => None,
            Some((a, j2)) => match p_lit(s, j2, l2) {
                None => None,
                Some(j3) => match p_string(s, j3) {
                    None => None,
                    Some((b, j4)) => if j4 < s.len() && s[j4] == '}' {
                        Some(((a, b), j4 + 1))
                    } else {
                        None
                    },
                },
            },
        },
    }
}

/// Consumes `lit1`, a string, `lit2`, a string, `lit3`, an optional
/// string, and the closing brace.
pub open spec fn p_fields2opt(
    s: Seq<char>,
    i: int,
    l1: Seq<char>,
    l2: Seq<char>,
    l3: Seq<char>,
) -> Option<((Seq<char>, Seq<char>, Option<Seq<char>>), int)> {
    match p_lit(s, i, l1) {
        None => None,
        Some(j1) => match p_string(s, j1) {
            None => None,
            Some((a, j2)) => match p_lit(s, j2, l2) {
                None => None,
                Some(j3) => match p_string(s, j3) {
                    None => None,
                    Some((b, j4)) => match p_lit(s, j4, l3) {
                        None => None,
                        Some(j5) => match p_opt(s, j5) {
                            None => None,
                            Some((o, j6)) => if j6 < s.len() && s[j6] == '}' {
                                Some(((a, b, o), j6 + 1))
                            } else {
                                None
                            },
                        },
                    },
                },
            },
        },
    }
}

/// Consumes `lit1`, a string, `lit2`, an optional string, and the
/// closing brace.
pub open spec fn p_fields1opt(s: Seq<char>, i: int, l1: Seq<char>, l2: Seq<char>) -> Option<
    ((Seq<char>, Option<Seq<char>>), int),
> {
    match p_lit(s, i, l1) {
        None => None,
        Some(j1) => match p_string(s, j1) {
            None => None,
            Some((a, j2)) => match p_lit(s, j2, l2) {
                None => None,
                Some(j3) => match p_opt(s, j3) {
                    None => None,
                    Some((o, j4)) => if j4 < s.len() && s[j4] == '}' {
                        Some(((a, o), j4 + 1))
                    } else {
                        None
                    },
                },
            },
        },
    }
}

/// Consumes one change object.
pub open spec fn p_change(s: Seq<char>, i: int) -> Option<(ChangeV, int)> {
    if !(0 <= i < s.len() && s[i] == '{') {
        None
    } else {
        match p_lit(s, i + 1, "\"type\":"@) {
            None => None,
            Some(j0) => match p_string(s, j0) {
                None => None,
                Some((tag, j1)) => if tag == "file_modified"@ {
                    match p_fields2(s, j1, ",\"path\":"@, ",\"backup_path\":"@) {
                        None => None,
                        Some(((path, backup_path), j)) => Some(
                            (ChangeV::FileModified { path, backup_path }, j),
                        ),
                    }
                } else if tag == "kernel_param_added"@ {
                    match p_fields2(s, j1, ",\"parameter\":"@, ",\"bootloader\":"@) {
                        None => None,
                        Some(((parameter, bootloader), j)) => Some(
                            (ChangeV::KernelParamAdded { parameter, bootloader }, j),
                        ),
                    }
                } else if tag == "kernel_param_removed"@ {
                    match p_fields2opt(
                        s,
                        j1,
                        ",\"parameter\":"@,
                        ",\"bootloader\":"@,
                        ",\"original_value\":"@,
                    ) {
                        None => None,
                        Some(((parameter, bootloader, original_value), j)) => Some(
                            (
                                ChangeV::KernelParamRemoved {
                                    parameter,
                                    bootloader,
                                    original_value,
                                },
                                j,
                            ),
                        ),
                    }
                } else if tag == "module_loaded"@ {
                    match p_fields2opt(
                        s,
                        j1,
                        ",\"name\":"@,
                        ",\"config_path\":"@,
                        ",\"backup_path\":"@,
                    ) {
                        None => None,
                        Some(((name, config_path, backup_path), j)) => Some(
                            (ChangeV::ModuleLoaded { name, config_path, backup_path }, j),
                        ),
                    }
                } else if tag == "driver_bound"@ {
                    match p_fields2opt(
                        s,
                        j1,
                        ",\"device_bdf\":"@,
                        ",\"new_driver\":"@,
                        ",\"original_driver\":"@,
                    ) {
                        None => None,
                        Some(((device_bdf, new_driver, original_driver), j)) => Some(
                            (
                                ChangeV::DriverBound { device_bdf, new_driver, original_driver },
                                j,
                            ),
                        ),
                    }
                } else if tag == "driver_unbound"@ {
                    match p_fields1opt(s, j1, ",\"device_bdf\":"@, ",\"original_driver\":"@) {
                        None => None,
                        Some(((device_bdf, original_driver), j)) => Some(
                            (ChangeV::DriverUnbound { device_bdf, original_driver }, j),
                        ),
                    }
                } else {
                    None
                },
            },
        }
    }
}

/// A parsed string body ends after its opening position and within the text.
pub proof fn lemma_p_body_bounds(s: Seq<char>, i: int)
    ensures
        p_string_body(s, i) matches Some(p) ==> i < p.1 <= s.len(),
    decreases s.len() - i,
{
    if 0 <= i < s.len() {
        if s[i] == '"' {
        } else if s[i] == '\\' {
            if i + 1 < s.len() {
                lemma_p_body_bounds(s, i + 2);
            }
        } else {
            lemma_p_body_bounds(s, i + 1);
        }
    }
}

/// A parsed change ends after its opening position and within the text.
pub proof fn lemma_p_change_bounds(s: Seq<char>, i: int)
    ensures
        p_change(s, i) matches Some(p) ==> i < p.1 <= s.len(),
{
    assert forall|k: int| true implies match #[trigger] p_string(s, k) {
        Some(p) => k < p.1 <= s.len(),
        None => true,
    } by {
        lemma_p_body_bounds(s, k + 1);
    }
}

/// Consumes a comma-separated run of change objects.
pub open spec fn p_items(s: Seq<char>, i: int) -> Option<(Seq<ChangeV>, int)>
    decreases s.len() - i,
    via p_items_dec
{
    match p_change(s, i) {
        None => None,
        Some((c, j)) => if j < s.len() && s[j] == ',' {
            match p_items(s, j + 1) {
                None => None,
                Some((rest, k)) => Some((seq![c] + rest, k)),
            }
        } else {
            Some((seq![c], j))
        },
    }
}

#[via_fn]
proof fn p_items_dec(s: Seq<char>, i: int) {
    lemma_p_change_bounds(s, i);
}

/// Parses a whole log document; anything but a full, exact parse is
/// rejected.
pub open spec fn p_log(s: Seq<char>) -> Option<Seq<ChangeV>> {
    if !(s.len() >= 2 && s[0] == '[') {
        None
    } else if s[1] == ']' {
        if s.len() == 2 {
            Some(Seq::empty())
        } else {
            None
        }
    } else {
        match p_items(s, 1) {
            None => None,
            Some((cs, j)) => if j < s.len() && s[j] == ']' && j + 1 == s.len() {
                Some(cs)
            } else {
                None
            },
        }
    }
}


// --- the codec round trip ---

/// A region of `s` made of two pieces splits into its pieces.
proof fn lemma_region_split(s: Seq<char>, i: int, a: Seq<char>, b: Seq<char>)
    requires
        0 <= i,
        i + a.len() + b.len() <= s.len(),
        s.subrange(i, i + a.len() + b.len()) == a + b,
    ensures
        s.subrange(i, i + a.len()) == a,
        s.subrange(i + a.len(), i + a.len() + b.len()) == b,
{
    let t = s.subrange(i, i + a.len() + b.len());
    assert forall|k: int| 0 <= k < a.len() implies s.subrange(i, i + a.len())[k] == a[k] by {
        assert(s.subrange(i, i + a.len())[k] == s[i + k]);
        assert(t[k] == s[i + k]);
        assert((a + b)[k] == a[k]);
    }
    assert(s.subrange(i, i + a.len()) =~= a);
    assert forall|k: int| 0 <= k < b.len()
        implies s.subrange(i + a.len(), i + a.len() + b.len())[k] == b[k] by {
        assert(s.subrange(i + a.len(), i + a.len() + b.len())[k] == s[i + a.len() + k]);
        assert(t[a.len() + k] == s[i + a.len() + k]);
        assert((a + b)[a.len() + k] == b[k]);
    }
    assert(s.subrange(i + a.len(), i + a.len() + b.len()) =~= b);
}

/// Consuming a literal piece of a region.
proof fn lemma_take_lit(s: Seq<char>, i: int, lit: Seq<char>, rest: Seq<char>)
    requires
        0 <= i,
        i + lit.len() + rest.len() <= s.len(),
        s.subrange(i, i + lit.len() + rest.len()) == lit + rest,
    ensures
        p_lit(s, i, lit) == Some(i + lit.len()),
        s.subrange(i + lit.len(), i + lit.len() + rest.len()) == rest,
{
    lemma_region_split(s, i, lit, rest);
}

/// Parsing the escaped body of `x` followed by its closing quote yields
/// exactly `x`.
proof fn lemma_p_body_rt(x: Seq<char>, s: Seq<char>, i: int)
    requires
        0 <= i,
        i + esc(x).len() + 1 <= s.len(),
        s.subrange(i, i + esc(x).len() + 1) == esc(x) + seq!['"'],
    ensures
        p_string_body(s, i) == Some((x, i + esc(x).len() + 1)),
    decreases x.len(),
{
    if x.len() == 0 {
        assert(esc(x) == Seq::<char>::empty());
        assert(esc(x) + seq!['"'] =~= seq!['"']);
        assert(s.subrange(i, i + 1)[0] == s[i]);
        assert(s[i] == '"');
        assert(x =~= Seq::<char>::empty());
    } else {
        let c = x[0];
        let e = esc_char(c);
        let xr = x.drop_first();
        assert(esc(x) == e + esc(xr));
        assert(s.subrange(i, i + esc(x).len() + 1) =~= s.subrange(
            i,
            i + e.len() + (esc(xr).len() + 1),
        ));
        assert(esc(x) + seq!['"'] =~= e + (esc(xr) + seq!['"']));
        lemma_region_split(s, i, e, esc(xr) + seq!['"']);
        if c == '\\' || c == '"' || c == '\n' || c == '\r' || c == '\t' {
            assert(e.len() == 2);
            assert(s.subrange(i, i + 2)[0] == s[i]);
            assert(s.subrange(i, i + 2)[1] == s[i + 1]);
            assert(s[i] == '\\');
            assert(unesc_char(s[i + 1]) == Some(c));
            lemma_p_body_rt(xr, s, i + 2);
            assert(seq![c] + xr =~= x);
        } else {
            assert(e.len() == 1);
            assert(s.subrange(i, i + 1)[0] == s[i]);
            assert(s[i] == c);
            lemma_p_body_rt(xr, s, i + 1);
            assert(seq![c] + xr =~= x);
        }
    }
}

/// Consuming a JSON string piece of a region.
proof fn lemma_take_str(s: Seq<char>, i: int, x: Seq<char>, rest: Seq<char>)
    requires
        0 <= i,
        i + jstr(x).len() + rest.len() <= s.len(),
        s.subrange(i, i + jstr(x).len() + rest.len()) == jstr(x) + rest,
    ensures
        p_string(s, i) == Some((x, i + jstr(x).len())),
        s.subrange(i + jstr(x).len(), i + jstr(x).len() + rest.len()) == rest,
{
    lemma_region_split(s, i, jstr(x), rest);
    assert(jstr(x) =~= seq!['"'] + (esc(x) + seq!['"']));
    lemma_region_split(s, i, seq!['"'], esc(x) + seq!['"']);
    assert(s.subrange(i, i + 1)[0] == s[i]);
    assert(s[i] == '"');
    lemma_p_body_rt(x, s, i + 1);
}

/// Consuming an optional-string piece of a region.
proof fn lemma_take_opt(s: Seq<char>, i: int, o: Option<Seq<char>>, rest: Seq<char>)
    requires
        0 <= i,
        i + jopt(o).len() + rest.len() <= s.len(),
        s.subrange(i, i + jopt(o).len() + rest.len()) == jopt(o) + rest,
    ensures
        p_opt(s, i) == Some((o, i + jopt(o).len())),
        s.subrange(i + jopt(o).len(), i + jopt(o).len() + rest.len()) == rest,
{
    reveal_strlit("null");
    lemma_region_split(s, i, jopt(o), rest);
    match o {
        None => {
            assert(match_at(s, i, "null"@));
        },
        Some(x) => {
            assert(jstr(x) =~= seq!['"'] + (esc(x) + seq!['"']));
            lemma_region_split(s, i, seq!['"'], esc(x) + seq!['"']);
            assert(s.subrange(i, i + 1)[0] == s[i]);
            assert(s[i] == '"');
            assert(!match_at(s, i, "null"@)) by {
                if match_at(s, i, "null"@) {
                    assert(s.subrange(i, i + "null"@.len())[0] == s[i]);
                    assert(s[i] == 'n');
                }
            }
            lemma_p_body_rt(x, s, i + 1);
        },
    }
}

/// Consuming two labelled string fields and the closing brace.
proof fn lemma_fields2_rt(s: Seq<char>, i: int, l1: Seq<char>, a: Seq<char>, l2: Seq<char>, b: Seq<char>)
    requires
        0 <= i,
        i + l1.len() + jstr(a).len() + l2.len() + jstr(b).len() + 1 <= s.len(),
        s.subrange(i, i + l1.len() + jstr(a).len() + l2.len() + jstr(b).len() + 1)
            == l1 + jstr(a) + l2 + jstr(b) + seq!['}'],
    ensures
        p_fields2(s, i, l1, l2) == Some(
            ((a, b), i + l1.len() + jstr(a).len() + l2.len() + jstr(b).len() + 1),
        ),
{
    let r3 = jstr(b) + seq!['}'];
    let r2 = l2 + r3;
    let r1 = jstr(a) + r2;
    assert(l1 + jstr(a) + l2 + jstr(b) + seq!['}'] =~= l1 + r1);
    lemma_take_lit(s, i, l1, r1);
    let i1 = i + l1.len();
    lemma_take_str(s, i1, a, r2);
    let i2 = i1 + jstr(a).len();
    lemma_take_lit(s, i2, l2, r3);
    let i3 = i2 + l2.len();
    lemma_take_str(s, i3, b, seq!['}']);
    let i4 = i3 + jstr(b).len();
    assert(s.subrange(i4, i4 + 1)[0] == s[i4]);
    assert(s[i4] == '}');
}

/// Consuming two labelled string fields, one optional field and the
/// closing brace.
proof fn lemma_fields2opt_rt(
    s: Seq<char>,
    i: int,
    l1: Seq<char>,
    a: Seq<char>,
    l2: Seq<char>,
    b: Seq<char>,
    l3: Seq<char>,
    o: Option<Seq<char>>,
)
    requires
        0 <= i,
        i + l1.len() + jstr(a).len() + l2.len() + jstr(b).len() + l3.len() + jopt(o).len() + 1
            <= s.len(),
        s.subrange(
            i,
            i + l1.len() + jstr(a).len() + l2.len() + jstr(b).len() + l3.len() + jopt(o).len() + 1,
        ) == l1 + jstr(a) + l2 + jstr(b) + l3 + jopt(o) + seq!['}'],
    ensures
        p_fields2opt(s, i, l1, l2, l3) == Some(
            (
                (a, b, o),
                i + l1.len() + jstr(a).len() + l2.len() + jstr(b).len() + l3.len()
                    + jopt(o).len() + 1,
            ),
        ),
{
    let r5 = jopt(o) + seq!['}'];
    let r4 = l3 + r5;
    let r3 = jstr(b) + r4;
    let r2 = l2 + r3;
    let r1 = jstr(a) + r2;
    assert(l1 + jstr(a) + l2 + jstr(b) + l3 + jopt(o) + seq!['}'] =~= l1 + r1);
    lemma_take_lit(s, i, l1, r1);
    let i1 = i + l1.len();
    lemma_take_str(s, i1, a, r2);
    let i2 = i1 + jstr(a).len();
    lemma_take_lit(s, i2, l2, r3);
    let i3 = i2 + l2.len();
    lemma_take_str(s, i3, b, r4);
    let i4 = i3 + jstr(b).len();
    lemma_take_lit(s, i4, l3, r5);
    let i5 = i4 + l3.len();
    lemma_take_opt(s, i5, o, seq!['}']);
    let i6 = i5 + jopt(o).len();
    assert(s.subrange(i6, i6 + 1)[0] == s[i6]);
    assert(s[i6] == '}');
}

/// Consuming one labelled string field, one optional field and the
/// closing brace.
proof fn lemma_fields1opt_rt(
    s: Seq<char>,
    i: int,
    l1: Seq<char>,
    a: Seq<char>,
    l2: Seq<char>,
    o: Option<Seq<char>>,
)
    requires
        0 <= i,
        i + l1.len() + jstr(a).len() + l2.len() + jopt(o).len() + 1 <= s.len(),
        s.subrange(i, i + l1.len() + jstr(a).len() + l2.len() + jopt(o).len() + 1)
            == l1 + jstr(a) + l2 + jopt(o) + seq!['}'],
    ensures
        p_fields1opt(s, i, l1, l2) == Some(
            ((a, o), i + l1.len() + jstr(a).len() + l2.len() + jopt(o).len() + 1),
        ),
{
    let r3 = jopt(o) + seq!['}'];
    let r2 = l2 + r3;
    let r1 = jstr(a) + r2;
    assert(l1 + jstr(a) + l2 + jopt(o) + seq!['}'] =~= l1 + r1);
    lemma_take_lit(s, i, l1, r1);
    let i1 = i + l1.len();
    lemma_take_str(s, i1, a, r2);
    let i2 = i1 + jstr(a).len();
    lemma_take_lit(s, i2, l2, r3);
    let i3 = i2 + l2.len();
    lemma_take_opt(s, i3, o, seq!['}']);
    let i4 = i3 + jopt(o).len();
    assert(s.subrange(i4, i4 + 1)[0] == s[i4]);
    assert(s[i4] == '}');
}

/// The six type tags are pairwise distinct.
proof fn lemma_tags_distinct()
    ensures
        "file_modified"@ != "kernel_param_added"@,
        "file_modified"@ != "kernel_param_removed"@,
        "file_modified"@ != "module_loaded"@,
        "file_modified"@ != "driver_bound"@,
        "file_modified"@ != "driver_unbound"@,
        "kernel_param_added"@ != "kernel_param_removed"@,
        "kernel_param_added"@ != "module_loaded"@,
        "kernel_param_added"@ != "driver_bound"@,
        "kernel_param_added"@ != "driver_unbound"@,
        "kernel_param_removed"@ != "module_loaded"@,
        "kernel_param_removed"@ != "driver_bound"@,
        "kernel_param_removed"@ != "driver_unbound"@,
        "module_loaded"@ != "driver_bound"@,
        "module_loaded"@ != "driver_unbound"@,
        "driver_bound"@ != "driver_unbound"@,
{
    reveal_strlit("file_modified");
    reveal_strlit("kernel_param_added");
    reveal_strlit("kernel_param_removed");
    reveal_strlit("module_loaded");
    reveal_strlit("driver_bound");
    reveal_strlit("driver_unbound");
    assert("file_modified"@.len() == 13);
    assert("kernel_param_added"@.len() == 18);
    assert("kernel_param_removed"@.len() == 20);
    assert("module_loaded"@.len() == 13);
    assert("driver_bound"@.len() == 12);
    assert("driver_unbound"@.len() == 14);
    assert("file_modified"@[0] == 'f');
    assert("module_loaded"@[0] == 'm');
}

#[verifier::spinoff_prover]
#[verifier::rlimit(100)]
proof fn lemma_rt_file_modified(path: Seq<char>, backup_path: Seq<char>, s: Seq<char>, i: int)
    requires
        0 <= i,
        i + render_change(ChangeV::FileModified { path, backup_path }).len() <= s.len(),
        s.subrange(i, i + render_change(ChangeV::FileModified { path, backup_path }).len()) == render_change(ChangeV::FileModified { path, backup_path }),
    ensures
        p_change(s, i) == Some((ChangeV::FileModified { path, backup_path }, i + render_change(ChangeV::FileModified { path, backup_path }).len())),
{
    lemma_tags_distinct();
    let c = ChangeV::FileModified { path, backup_path };
    let r = render_change(c);
    let tlit = "\"type\":"@;
    let tag = "file_modified"@;
    let fields = ",\"path\":"@ + jstr(path) + ",\"backup_path\":"@ + jstr(backup_path)
        + seq!['}'];
    let after_type = jstr(tag) + fields;
    assert(r =~= seq!['{'] + (tlit + after_type));
    lemma_region_split(s, i, seq!['{'], tlit + after_type);
    assert(s.subrange(i, i + 1)[0] == s[i]);
    lemma_take_lit(s, i + 1, tlit, after_type);
    let i2 = i + 1 + tlit.len();
    lemma_take_str(s, i2, tag, fields);
    let i3 = i2 + jstr(tag).len();
    lemma_fields2_rt(s, i3, ",\"path\":"@, path, ",\"backup_path\":"@, backup_path);
}

#[verifier::spinoff_prover]
#[verifier::rlimit(100)]
proof fn lemma_rt_kernel_param_added(parameter: Seq<char>, bootloader: Seq<char>, s: Seq<char>, i: int)
    requires
        0 <= i,
        i + render_change(ChangeV::KernelParamAdded { parameter, bootloader }).len() <= s.len(),
        s.subrange(i, i + render_change(ChangeV::KernelParamAdded { parameter, bootloader }).len()) == render_change(ChangeV::KernelParamAdded { parameter, bootloader }),
    ensures
        p_change(s, i) == Some((ChangeV::KernelParamAdded { parameter, bootloader }, i + render_change(ChangeV::KernelParamAdded { parameter, bootloader }).len())),
{
    lemma_tags_distinct();
    let c = ChangeV::KernelParamAdded { parameter, bootloader };
    let r = render_change(c);
    let tlit = "\"type\":"@;
    let tag = "kernel_param_added"@;
    let fields = ",\"parameter\":"@ + jstr(parameter) + ",\"bootloader\":"@
        + jstr(bootloader) + seq!['}'];
    let after_type = jstr(tag) + fields;
    assert(r =~= seq!['{'] + (tlit + after_type));
    lemma_region_split(s, i, seq!['{'], tlit + after_type);
    assert(s.subrange(i, i + 1)[0] == s[i]);
    lemma_take_lit(s, i + 1, tlit, after_type);
    let i2 = i + 1 + tlit.len();
    lemma_take_str(s, i2, tag, fields);
    let i3 = i2 + jstr(tag).len();
    lemma_fields2_rt(s, i3, ",\"parameter\":"@, parameter, ",\"bootloader\":"@, bootloader);
}

#[verifier::spinoff_prover]
#[verifier::rlimit(100)]
proof fn lemma_rt_kernel_param_removed(parameter: Seq<char>, bootloader: Seq<char>, original_value: Option<Seq<char>>, s: Seq<char>, i: int)
    requires
        0 <= i,
        i + render_change(ChangeV::KernelParamRemoved { parameter, bootloader, original_value }).len() <= s.len(),
        s.subrange(i, i + render_change(ChangeV::KernelParamRemoved { parameter, bootloader, original_value }).len()) == render_change(ChangeV::KernelParamRemoved { parameter, bootloader, original_value }),
    ensures
        p_change(s, i) == Some((ChangeV::KernelParamRemoved { parameter, bootloader, original_value }, i + render_change(ChangeV::KernelParamRemoved { parameter, bootloader, original_value }).len())),
{
    lemma_tags_distinct();
    let c = ChangeV::KernelParamRemoved { parameter, bootloader, original_value };
    let r = render_change(c);
    let tlit = "\"type\":"@;
    let tag = "kernel_param_removed"@;
    let fields = ",\"parameter\":"@ + jstr(parameter) + ",\"bootloader\":"@
        + jstr(bootloader) + ",\"original_value\":"@ + jopt(original_value) + seq!['}'];
    let after_type = jstr(tag) + fields;
    assert(r =~= seq!['{'] + (tlit + after_type));
    lemma_region_split(s, i, seq!['{'], tlit + after_type);
    assert(s.subrange(i, i + 1)[0] == s[i]);
    lemma_take_lit(s, i + 1, tlit, after_type);
    let i2 = i + 1 + tlit.len();
    lemma_take_str(s, i2, tag, fields);
    let i3 = i2 + jstr(tag).len();
    lemma_fields2opt_rt(
        s,
        i3,
        ",\"parameter\":"@,
        parameter,
        ",\"bootloader\":"@,
        bootloader,
        ",\"original_value\":"@,
        original_value,
    );
}

#[verifier::spinoff_prover]
#[verifier::rlimit(100)]
proof fn lemma_rt_module_loaded(name: Seq<char>, config_path: Seq<char>, backup_path: Option<Seq<char>>, s: Seq<char>, i: int)
    requires
        0 <= i,
        i + render_change(ChangeV::ModuleLoaded { name, config_path, backup_path }).len() <= s.len(),
        s.subrange(i, i + render_change(ChangeV::ModuleLoaded { name, config_path, backup_path }).len()) == render_change(ChangeV::ModuleLoaded { name, config_path, backup_path }),
    ensures
        p_change(s, i) == Some((ChangeV::ModuleLoaded { name, config_path, backup_path }, i + render_change(ChangeV::ModuleLoaded { name, config_path, backup_path }).len())),
{
    lemma_tags_distinct();
    let c = ChangeV::ModuleLoaded { name, config_path, backup_path };
    let r = render_change(c);
    let tlit = "\"type\":"@;
    let tag = "module_loaded"@;
    let fields = ",\"name\":"@ + jstr(name) + ",\"config_path\":"@ + jstr(config_path)
        + ",\"backup_path\":"@ + jopt(backup_path) + seq!['}'];
    let after_type = jstr(tag) + fields;
    assert(r =~= seq!['{'] + (tlit + after_type));
    lemma_region_split(s, i, seq!['{'], tlit + after_type);
    assert(s.subrange(i, i + 1)[0] == s[i]);
    lemma_take_lit(s, i + 1, tlit, after_type);
    let i2 = i + 1 + tlit.len();
    lemma_take_str(s, i2, tag, fields);
    let i3 = i2 + jstr(tag).len();
    lemma_fields2opt_rt(
        s,
        i3,
        ",\"name\":"@,
        name,
        ",\"config_path\":"@,
        config_path,
        ",\"backup_path\":"@,
        backup_path,
    );
}

#[verifier::spinoff_prover]
#[verifier::rlimit(100)]
proof fn lemma_rt_driver_bound(device_bdf: Seq<char>, new_driver: Seq<char>, original_driver: Option<Seq<char>>, s: Seq<char>, i: int)
    requires
        0 <= i,
        i + render_change(ChangeV::DriverBound { device_bdf, new_driver, original_driver }).len() <= s.len(),
        s.subrange(i, i + render_change(ChangeV::DriverBound { device_bdf, new_driver, original_driver }).len()) == render_change(ChangeV::DriverBound { device_bdf, new_driver, original_driver }),
    ensures
        p_change(s, i) == Some((ChangeV::DriverBound { device_bdf, new_driver, original_driver }, i + render_change(ChangeV::DriverBound { device_bdf, new_driver, original_driver }).len())),
{
    lemma_tags_distinct();
    let c = ChangeV::DriverBound { device_bdf, new_driver, original_driver };
    let r = render_change(c);
    let tlit = "\"type\":"@;
    let tag = "driver_bound"@;
    let fields = ",\"device_bdf\":"@ + jstr(device_bdf) + ",\"new_driver\":"@
        + jstr(new_driver) + ",\"original_driver\":"@ + jopt(original_driver) + seq!['}'];
    let after_type = jstr(tag) + fields;
    assert(r =~= seq!['{'] + (tlit + after_type));
    lemma_region_split(s, i, seq!['{'], tlit + after_type);
    assert(s.subrange(i, i + 1)[0] == s[i]);
    lemma_take_lit(s, i + 1, tlit, after_type);
    let i2 = i + 1 + tlit.len();
    lemma_take_str(s, i2, tag, fields);
    let i3 = i2 + jstr(tag).len();
    lemma_fields2opt_rt(
        s,
        i3,
        ",\"device_bdf\":"@,
        device_bdf,
        ",\"new_driver\":"@,
        new_driver,
        ",\"original_driver\":"@,
        original_driver,
    );
}

#[verifier::spinoff_prover]
#[verifier::rlimit(100)]
proof fn lemma_rt_driver_unbound(device_bdf: Seq<char>, original_driver: Option<Seq<char>>, s: Seq<char>, i: int)
    requires
        0 <= i,
        i + render_change(ChangeV::DriverUnbound { device_bdf, original_driver }).len() <= s.len(),
        s.subrange(i, i + render_change(ChangeV::DriverUnbound { device_bdf, original_driver }).len()) == render_change(ChangeV::DriverUnbound { device_bdf, original_driver }),
    ensures
        p_change(s, i) == Some((ChangeV::DriverUnbound { device_bdf, original_driver }, i + render_change(ChangeV::DriverUnbound { device_bdf, original_driver }).len())),
{
    lemma_tags_distinct();
    let c = ChangeV::DriverUnbound { device_bdf, original_driver };
    let r = render_change(c);
    let tlit = "\"type\":"@;
    let tag = "driver_unbound"@;
    let fields = ",\"device_bdf\":"@ + jstr(device_bdf) + ",\"original_driver\":"@
        + jopt(original_driver) + seq!['}'];
    let after_type = jstr(tag) + fields;
    assert(r =~= seq!['{'] + (tlit + after_type));
    lemma_region_split(s, i, seq!['{'], tlit + after_type);
    assert(s.subrange(i, i + 1)[0] == s[i]);
    lemma_take_lit(s, i + 1, tlit, after_type);
    let i2 = i + 1 + tlit.len();
    lemma_take_str(s, i2, tag, fields);
    let i3 = i2 + jstr(tag).len();
    lemma_fields1opt_rt(
        s,
        i3,
        ",\"device_bdf\":"@,
        device_bdf,
        ",\"original_driver\":"@,
        original_driver,
    );
}

/// Parsing a rendered change at its position yields that change back.
proof fn lemma_p_change_rt(c: ChangeV, s: Seq<char>, i: int)
    requires
        0 <= i,
        i + render_change(c).len() <= s.len(),
        s.subrange(i, i + render_change(c).len()) == render_change(c),
    ensures
        p_change(s, i) == Some((c, i + render_change(c).len())),
{
    match c {
        ChangeV::FileModified { path, backup_path } => {
            lemma_rt_file_modified(path, backup_path, s, i);
        },
        ChangeV::KernelParamAdded { parameter, bootloader } => {
            lemma_rt_kernel_param_added(parameter, bootloader, s, i);
        },
        ChangeV::KernelParamRemoved { parameter, bootloader, original_value } => {
            lemma_rt_kernel_param_removed(parameter, bootloader, original_value, s, i);
        },
        ChangeV::ModuleLoaded { name, config_path, backup_path } => {
            lemma_rt_module_loaded(name, config_path, backup_path, s, i);
        },
        ChangeV::DriverBound { device_bdf, new_driver, original_driver } => {
            lemma_rt_driver_bound(device_bdf, new_driver, original_driver, s, i);
        },
        ChangeV::DriverUnbound { device_bdf, original_driver } => {
            lemma_rt_driver_unbound(device_bdf, original_driver, s, i);
        },
    }
}

/// Parsing rendered items followed by the closing bracket yields them back.
proof fn lemma_p_items_rt(cs: Seq<ChangeV>, s: Seq<char>, i: int)
    requires
        cs.len() > 0,
        0 <= i,
        i + render_items(cs).len() < s.len(),
        s.subrange(i, i + render_items(cs).len()) == render_items(cs),
        s[i + render_items(cs).len()] == ']',
    ensures
        p_items(s, i) == Some((cs, i + render_items(cs).len())),
    decreases cs.len(),
{
    if cs.len() == 1 {
        assert(render_items(cs) == render_change(cs[0]));
        lemma_p_change_rt(cs[0], s, i);
        let j = i + render_change(cs[0]).len();
        assert(s[j] == ']');
        assert(seq![cs[0]] =~= cs);
    } else {
        let head = render_change(cs[0]);
        let rest = render_items(cs.drop_first());
        assert(render_items(cs) == head + seq![','] + rest);
        assert(render_items(cs) =~= head + (seq![','] + rest));
        lemma_region_split(s, i, head, seq![','] + rest);
        lemma_p_change_rt(cs[0], s, i);
        let j = i + head.len();
        assert(seq![','] + rest =~= seq![','] + rest);
        lemma_region_split(s, j, seq![','], rest);
        assert(s.subrange(j, j + 1)[0] == s[j]);
        assert(s[j] == ',');
        lemma_p_items_rt(cs.drop_first(), s, j + 1);
        assert(seq![cs[0]] + cs.drop_first() =~= cs);
    }
}

/// Law: the codec round trip. Parsing a rendered change log yields the
/// identical sequence of changes.
pub proof fn lemma_log_round_trip(cs: Seq<ChangeV>)
    ensures
        p_log(render_log(cs)) == Some(cs),
{
    let s = render_log(cs);
    assert(s[0] == '[');
    if cs.len() == 0 {
        assert(render_items(cs) == Seq::<char>::empty());
        assert(s =~= seq!['[', ']']);
        assert(cs =~= Seq::<ChangeV>::empty());
    } else {
        let items = render_items(cs);
        assert(s.len() == items.len() + 2);
        // the first change opens with a brace, not a bracket
        let head = render_change(cs[0]);
        assert(head[0] == '{') by {
            if cs.len() == 1 {
                assert(items == head);
            } else {
                assert(items == head + seq![','] + render_items(cs.drop_first()));
            }
            lemma_head_brace(cs[0]);
        }
        assert(items.len() > 0) by {
            lemma_head_brace(cs[0]);
        }
        assert(s[1] == items[0]) by {
            assert(s == seq!['['] + items + seq![']']);
        }
        assert(items[0] == head[0]) by {
            if cs.len() > 1 {
                assert((head + seq![','] + render_items(cs.drop_first()))[0] == head[0]);
            }
        }
        assert(s[1] == '{');
        assert(s.subrange(1, 1 + items.len() as int) =~= items);
        assert(s[1 + items.len() as int] == ']');
        lemma_p_items_rt(cs, s, 1);
    }
}

/// Every rendered change opens with a brace.
proof fn lemma_head_brace(c: ChangeV)
    ensures
        render_change(c).len() > 0,
        render_change(c)[0] == '{',
{
    match c {
        ChangeV::FileModified { path, backup_path } => {},
        ChangeV::KernelParamAdded { parameter, bootloader } => {},
        ChangeV::KernelParamRemoved { parameter, bootloader, original_value } => {},
        ChangeV::ModuleLoaded { name, config_path, backup_path } => {},
        ChangeV::DriverBound { device_bdf, new_driver, original_driver } => {},
        ChangeV::DriverUnbound { device_bdf, original_driver } => {},
    }
}


// --- the executable parser ---

fn px_string_body(v: &Vec<char>, i: usize) -> (r: Option<(Vec<char>, usize)>)
    requires
        i <= v.len(),
    ensures
        p_string_body(v@, i as int) == match r {
            Some((x, j)) => Some((x@, j as int)),
            None => None::<(Seq<char>, int)>,
        },
        r matches Some(p) ==> i < p.1 <= v.len(),
    decreases v.len() - i,
{
    if i >= v.len() {
        return None;
    }
    let c = v[i];
    if c == '"' {
        let out: Vec<char> = Vec::new();
        proof {
            assert(out@ =~= Seq::<char>::empty());
        }
        return Some((out, i + 1));
    }
    if c == '\\' {
        if i + 1 < v.len() {
            let e = v[i + 1];
            let ch: char = if e == '\\' {
                '\\'
            } else if e == '"' {
                '"'
            } else if e == 'n' {
                '\n'
            } else if e == 'r' {
                '\r'
            } else if e == 't' {
                '\t'
            } else {
                return None;
            };
            proof {
                assert(unesc_char(v@[i + 1 as int]) == Some(ch));
            }
            match px_string_body(v, i + 2) {
                None => None,
                Some((rest, j)) => {
                    let mut out = rest;
                    out.insert(0, ch);
                    proof {
                        assert(out@ =~= seq![ch] + out@.subrange(1, out@.len() as int));
                    }
                    Some((out, j))
                },
            }
        } else {
            None
        }
    } else {
        match px_string_body(v, i + 1) {
            None => None,
            Some((rest, j)) => {
                let mut out = rest;
                out.insert(0, c);
                proof {
                    assert(out@ =~= seq![c] + out@.subrange(1, out@.len() as int));
                }
                Some((out, j))
            },
        }
    }
}

fn px_string(v: &Vec<char>, i: usize) -> (r: Option<(Vec<char>, usize)>)
    requires
        i <= v.len(),
    ensures
        p_string(v@, i as int) == match r {
            Some((x, j)) => Some((x@, j as int)),
            None => None::<(Seq<char>, int)>,
        },
        r matches Some(p) ==> i < p.1 <= v.len(),
{
    if i < v.len() && v[i] == '"' {
        px_string_body(v, i + 1)
    } else {
        None
    }
}

fn px_lit(v: &Vec<char>, i: usize, lit: &Vec<char>) -> (r: Option<usize>)
    requires
        i <= v.len(),
    ensures
        p_lit(v@, i as int, lit@) == match r {
            Some(j) => Some(j as int),
            None => None::<int>,
        },
        r matches Some(j) ==> i <= j <= v.len(),
{
    if match_at_x(v, i, lit) {
        Some(i + lit.len())
    } else {
        None
    }
}

fn px_opt(v: &Vec<char>, i: usize) -> (r: Option<(Option<Vec<char>>, usize)>)
    requires
        i <= v.len(),
    ensures
        p_opt(v@, i as int) == match r {
            Some((Some(x), j)) => Some((Some(x@), j as int)),
            Some((None, j)) => Some((None::<Seq<char>>, j as int)),
            None => None::<(Option<Seq<char>>, int)>,
        },
        r matches Some(p) ==> i <= p.1 <= v.len(),
{
    let null_lit = chars_vec("null");
    if match_at_x(v, i, &null_lit) {
        return Some((None, i + null_lit.len()));
    }
    match px_string(v, i) {
        None => None,
        Some((x, j)) => Some((Some(x), j)),
    }
}

fn px_fields2(v: &Vec<char>, i: usize, l1: &Vec<char>, l2: &Vec<char>) -> (r: Option<
    ((Vec<char>, Vec<char>), usize),
>)
    requires
        i <= v.len(),
    ensures
        p_fields2(v@, i as int, l1@, l2@) == match r {
            Some(((a, b), j)) => Some(((a@, b@), j as int)),
            None => None::<((Seq<char>, Seq<char>), int)>,
        },
        r matches Some(p) ==> i <= p.1 <= v.len(),
{
    let j1 = match px_lit(v, i, l1) {
        None => return None,
        Some(j) => j,
    };
    let (a, j2) = match px_string(v, j1) {
        None => return None,
        Some(p) => p,
    };
    let j3 = match px_lit(v, j2, l2) {
        None => return None,
        Some(j) => j,
    };
    let (b, j4) = match px_string(v, j3) {
        None => return None,
        Some(p) => p,
    };
    if j4 < v.len() && v[j4] == '}' {
        Some(((a, b), j4 + 1))
    } else {
        None
    }
}

fn px_fields2opt(v: &Vec<char>, i: usize, l1: &Vec<char>, l2: &Vec<char>, l3: &Vec<char>) -> (r:
    Option<((Vec<char>, Vec<char>, Option<Vec<char>>), usize)>)
    requires
        i <= v.len(),
    ensures
        p_fields2opt(v@, i as int, l1@, l2@, l3@) == match r {
            Some(((a, b, Some(o)), j)) => Some(((a@, b@, Some(o@)), j as int)),
            Some(((a, b, None), j)) => Some(((a@, b@, None::<Seq<char>>), j as int)),
            None => None::<((Seq<char>, Seq<char>, Option<Seq<char>>), int)>,
        },
        r matches Some(p) ==> i <= p.1 <= v.len(),
{
    let j1 = match px_lit(v, i, l1) {
        None => return None,
        Some(j) => j,
    };
    let (a, j2) = match px_string(v, j1) {
        None => return None,
        Some(p) => p,
    };
    let j3 = match px_lit(v, j2, l2) {
        None => return None,
        Some(j) => j,
    };
    let (b, j4) = match px_string(v, j3) {
        None => return None,
        Some(p) => p,
    };
    let j5 = match px_lit(v, j4, l3) {
        None => return None,
        Some(j) => j,
    };
    let (o, j6) = match px_opt(v, j5) {
        None => return None,
        Some(p) => p,
    };
    if j6 < v.len() && v[j6] == '}' {
        Some(((a, b, o), j6 + 1))
    } else {
        None
    }
}

fn px_fields1opt(v: &Vec<char>, i: usize, l1: &Vec<char>, l2: &Vec<char>) -> (r: Option<
    ((Vec<char>, Option<Vec<char>>), usize),
>)
    requires
        i <= v.len(),
    ensures
        p_fields1opt(v@, i as int, l1@, l2@) == match r {
            Some(((a, Some(o)), j)) => Some(((a@, Some(o@)), j as int)),
            Some(((a, None), j)) => Some(((a@, None::<Seq<char>>), j as int)),
            None => None::<((Seq<char>, Option<Seq<char>>), int)>,
        },
        r matches Some(p) ==> i <= p.1 <= v.len(),
{
    let j1 = match px_lit(v, i, l1) {
        None => return None,
        Some(j) => j,
    };
    let (a, j2) = match px_string(v, j1) {
        None => return None,
        Some(p) => p,
    };
    let j3 = match px_lit(v, j2, l2) {
        None => return None,
        Some(j) => j,
    };
    let (o, j4) = match px_opt(v, j3) {
        None => return None,
        Some(p) => p,
    };
    if j4 < v.len() && v[j4] == '}' {
        Some(((a, o), j4 + 1))
    } else {
        None
    }
}

fn opt_chars_to_string(o: Option<Vec<char>>) -> (r: Option<String>)
    ensures
        opt_view(r) == match o {
            Some(x) => Some(x@),
            None => None::<Seq<char>>,
        },
{
    match o {
        None => None,
        Some(x) => Some(chars_to_string(&x)),
    }
}

#[verifier::rlimit(100)]
fn px_change(v: &Vec<char>, i: usize) -> (r: Option<(Change, usize)>)
    requires
        i <= v.len(),
    ensures
        p_change(v@, i as int) == match r {
            Some((c, j)) => Some((c@, j as int)),
            None => None::<(ChangeV, int)>,
        },
        r matches Some(p) ==> i < p.1 <= v.len(),
{
    proof {
        lemma_p_change_bounds(v@, i as int);
    }
    if !(i < v.len() && v[i] == '{') {
        return None;
    }
    let tlit = chars_vec("\"type\":");
    let j0 = match px_lit(v, i + 1, &tlit) {
        None => return None,
        Some(j) => j,
    };
    let (tag, j1) = match px_string(v, j0) {
        None => return None,
        Some(p) => p,
    };
    if eq_chars(&tag, &chars_vec("file_modified")) {
        match px_fields2(v, j1, &chars_vec(",\"path\":"), &chars_vec(",\"backup_path\":")) {
            None => None,
            Some(((a, b), j)) => Some((
                Change::FileModified {
                    path: chars_to_string(&a),
                    backup_path: chars_to_string(&b),
                },
                j,
            )),
        }
    } else if eq_chars(&tag, &chars_vec("kernel_param_added")) {
        match px_fields2(v, j1, &chars_vec(",\"parameter\":"), &chars_vec(",\"bootloader\":")) {
            None => None,
            Some(((a, b), j)) => Some((
                Change::KernelParamAdded {
                    parameter: chars_to_string(&a),
                    bootloader: chars_to_string(&b),
                },
                j,
            )),
        }
    } else if eq_chars(&tag, &chars_vec("kernel_param_removed")) {
        match px_fields2opt(
            v,
            j1,
            &chars_vec(",\"parameter\":"),
            &chars_vec(",\"bootloader\":"),
            &chars_vec(",\"original_value\":"),
        ) {
            None => None,
            Some(((a, b, o), j)) => Some((
                Change::KernelParamRemoved {
                    parameter: chars_to_string(&a),
                    bootloader: chars_to_string(&b),
                    original_value: opt_chars_to_string(o),
                },
                j,
            )),
        }
    } else if eq_chars(&tag, &chars_vec("module_loaded")) {
        match px_fields2opt(
            v,
            j1,
            &chars_vec(",\"name\":"),
            &chars_vec(",\"config_path\":"),
            &chars_vec(",\"backup_path\":"),
        ) {
            None => None,
            Some(((a, b, o), j)) => Some((
                Change::ModuleLoaded {
                    name: chars_to_string(&a),
                    config_path: chars_to_string(&b),
                    backup_path: opt_chars_to_string(o),
                },
                j,
            )),
        }
    } else if eq_chars(&tag, &chars_vec("driver_bound")) {
        match px_fields2opt(
            v,
            j1,
            &chars_vec(",\"device_bdf\":"),
            &chars_vec(",\"new_driver\":"),
            &chars_vec(",\"original_driver\":"),
        ) {
            None => None,
            Some(((a, b, o), j)) => Some((
                Change::DriverBound {
                    device_bdf: chars_to_string(&a),
                    new_driver: chars_to_string(&b),
                    original_driver: opt_chars_to_string(o),
                },
                j,
            )),
        }
    } else if eq_chars(&tag, &chars_vec("driver_unbound")) {
        match px_fields1opt(v, j1, &chars_vec(",\"device_bdf\":"), &chars_vec(",\"original_driver\":")) {
            None => None,
            Some(((a, o), j)) => Some((
                Change::DriverUnbound {
                    device_bdf: chars_to_string(&a),
                    original_driver: opt_chars_to_string(o),
                },
                j,
            )),
        }
    } else {
        None
    }
}

fn px_items(v: &Vec<char>, i: usize) -> (r: Option<(Vec<Change>, usize)>)
    requires
        i <= v.len(),
    ensures
        p_items(v@, i as int) == match r {
            Some((cs, j)) => Some((cs@.map_values(|c: Change| c@), j as int)),
            None => None::<(Seq<ChangeV>, int)>,
        },
        r matches Some(p) ==> i < p.1 <= v.len(),
    decreases v.len() - i,
{
    let (c, j) = match px_change(v, i) {
        None => return None,
        Some(p) => p,
    };
    if j < v.len() && v[j] == ',' {
        match px_items(v, j + 1) {
            None => None,
            Some((rest, k)) => {
                let mut out = rest;
                out.insert(0, c);
                proof {
                    let m = out@.map_values(|x: Change| x@);
                    assert(m =~= seq![c@] + out@.subrange(1, out@.len() as int).map_values(
                        |x: Change| x@,
                    ));
                }
                Some((out, k))
            },
        }
    } else {
        let mut out: Vec<Change> = Vec::new();
        out.push(c);
        proof {
            assert(out@.map_values(|x: Change| x@) =~= seq![c@]);
        }
        Some((out, j))
    }
}

/// Parses a log document. Anything but a complete, well-formed document
/// is rejected, and the loader then starts fresh.
pub fn parse_log_doc(doc: &str) -> (r: Option<Vec<Change>>)
    ensures
        p_log(doc@) == match r {
            Some(cs) => Some(cs@.map_values(|c: Change| c@)),
            None => None::<Seq<ChangeV>>,
        },
{
    let v = chars_vec(doc);
    if !(v.len() >= 2 && v[0] == '[') {
        return None;
    }
    if v[1] == ']' {
        if v.len() == 2 {
            let out: Vec<Change> = Vec::new();
            proof {
                assert(out@.map_values(|x: Change| x@) =~= Seq::<ChangeV>::empty());
            }
            return Some(out);
        } else {
            return None;
        }
    }
    match px_items(&v, 1) {
        None => None,
        Some((cs, j)) => {
            if j < v.len() && v[j] == ']' && j + 1 == v.len() {
                Some(cs)
            } else {
                None
            }
        },
    }
}


// --- undo actions and the tracker ---

/// What undoes one recorded change. The caller performs the file and
/// sysfs work; `Manual` actions are reported, not executed.
#[derive(Debug, Clone, PartialEq)]
pub enum UndoAction {
    /// Replace `path` with the backup, atomically, consuming the backup.
    RestoreFile { path: String, backup_path: String },
    /// A parameter added earlier must be removed by a bootloader backend.
    ManualParamRemove { parameter: String, bootloader: String },
    /// A parameter removed earlier must be restored by a bootloader backend.
    ManualParamRestore { parameter: String, bootloader: String, original_value: Option<String> },
    /// Restore the module configuration from its backup when one exists,
    /// else delete the created file.
    RestoreModule { config_path: String, backup_path: Option<String> },
    /// Rebind the device to its original driver; unknown drivers are a
    /// manual step.
    RebindDevice { device_bdf: String, original_driver: Option<String> },
}

/// The mathematical form of an `UndoAction`.
pub enum UndoActionV {
    RestoreFile { path: Seq<char>, backup_path: Seq<char> },
    ManualParamRemove { parameter: Seq<char>, bootloader: Seq<char> },
    ManualParamRestore {
        parameter: Seq<char>,
        bootloader: Seq<char>,
        original_value: Option<Seq<char>>,
    },
    RestoreModule { config_path: Seq<char>, backup_path: Option<Seq<char>> },
    RebindDevice { device_bdf: Seq<char>, original_driver: Option<Seq<char>> },
}

impl View for UndoAction {
    type V = UndoActionV;

    open spec fn view(&self) -> UndoActionV {
        match self {
            UndoAction::RestoreFile { path, backup_path } => UndoActionV::RestoreFile {
                path: path@,
                backup_path: backup_path@,
            },
            UndoAction::ManualParamRemove { parameter, bootloader } =>
                UndoActionV::ManualParamRemove { parameter: parameter@, bootloader: bootloader@ },
            UndoAction::ManualParamRestore { parameter, bootloader, original_value } =>
                UndoActionV::ManualParamRestore {
                parameter: parameter@,
                bootloader: bootloader@,
                original_value: opt_view(*original_value),
            },
            UndoAction::RestoreModule { config_path, backup_path } => UndoActionV::RestoreModule {
                config_path: config_path@,
                backup_path: opt_view(*backup_path),
            },
            UndoAction::RebindDevice { device_bdf, original_driver } =>
                UndoActionV::RebindDevice {
                device_bdf: device_bdf@,
                original_driver: opt_view(*original_driver),
            },
        }
    }
}

/// The undo of each kind of change.
pub open spec fn undo_of(c: ChangeV) -> UndoActionV {
    match c {
        ChangeV::FileModified { path, backup_path } => UndoActionV::RestoreFile {
            path,
            backup_path,
        },
        ChangeV::KernelParamAdded { parameter, bootloader } => UndoActionV::ManualParamRemove {
            parameter,
            bootloader,
        },
        ChangeV::KernelParamRemoved { parameter, bootloader, original_value } =>
            UndoActionV::ManualParamRestore { parameter, bootloader, original_value },
        ChangeV::ModuleLoaded { name, config_path, backup_path } => UndoActionV::RestoreModule {
            config_path,
            backup_path,
        },
        ChangeV::DriverBound { device_bdf, new_driver, original_driver } =>
            UndoActionV::RebindDevice { device_bdf, original_driver },
        ChangeV::DriverUnbound { device_bdf, original_driver } => UndoActionV::RebindDevice {
            device_bdf,
            original_driver,
        },
    }
}

/// A file system, as the undo executor sees it: full paths to contents.
pub open spec fn apply_undo(
    files: Map<Seq<char>, Seq<char>>,
    a: UndoActionV,
) -> Map<Seq<char>, Seq<char>> {
    match a {
        UndoActionV::RestoreFile { path, backup_path } => if files.dom().contains(backup_path) {
            files.insert(path, files[backup_path]).remove(backup_path)
        } else {
            files
        },
        UndoActionV::RestoreModule { config_path, backup_path } => match backup_path {
            Some(bp) => if files.dom().contains(bp) {
                files.insert(config_path, files[bp]).remove(bp)
            } else {
                files.remove(config_path)
            },
            None => files.remove(config_path),
        },
        UndoActionV::ManualParamRemove { .. } => files,
        UndoActionV::ManualParamRestore { .. } => files,
        UndoActionV::RebindDevice { .. } => files,
    }
}

/// Law: undoing a `FileModified` whose backup holds the original bytes
/// restores exactly those bytes at the original path, whatever the file
/// holds now.
pub proof fn lemma_file_modified_restore(
    files: Map<Seq<char>, Seq<char>>,
    path: Seq<char>,
    backup_path: Seq<char>,
    original: Seq<char>,
)
    requires
        path != backup_path,
        files.dom().contains(backup_path),
        files[backup_path] == original,
    ensures
        ({
            let f2 = apply_undo(files, undo_of(ChangeV::FileModified { path, backup_path }));
            f2.dom().contains(path) && f2[path] == original && !f2.dom().contains(backup_path)
        }),
{
}

/// Tracks the ordered sequence of changes made during configuration.
///
/// The log is persisted as one JSON document after every append; this
/// type produces and consumes the document, the caller does the file
/// I/O and must treat a failure to persist as a failure of the whole
/// recording step.
#[derive(Debug)]
pub struct StateTracker {
    pub changes: Vec<Change>,
    pub state_file_path: String,
}

impl StateTracker {
    /// A tracker over the given state file. `existing` is the file's
    /// text when one exists; a document that does not parse degrades to
    /// a fresh, empty log, reported by the second component so the
    /// caller can warn.
    pub fn new(state_file_path: String, existing: Option<&String>) -> (r: (StateTracker, bool))
        ensures
            r.0.state_file_path@ == state_file_path@,
            match existing {
                None => r.0.changes@.len() == 0 && !r.1,
                Some(doc) => match p_log(doc@) {
                    Some(cs) => r.0.changes@.map_values(|c: Change| c@) == cs && !r.1,
                    None => r.0.changes@.len() == 0 && r.1,
                },
            },
    {
        match existing {
            None => {
                let t = StateTracker { changes: Vec::new(), state_file_path };
                proof {
                    assert(t.changes@.map_values(|c: Change| c@) =~= Seq::<ChangeV>::empty());
                }
                (t, false)
            },
            Some(doc) => match parse_log_doc(doc.as_str()) {
                Some(changes) => (StateTracker { changes, state_file_path }, false),
                None => (StateTracker { changes: Vec::new(), state_file_path }, true),
            },
        }
    }

    /// Parses a persisted document into a tracker; an unparsable
    /// document is invalid data.
    pub fn load_state(state_file_path: String, doc: &str) -> (r: Result<StateTracker, VfioError>)
        ensures
            match r {
                Ok(t) => p_log(doc@) == Some(t.changes@.map_values(|c: Change| c@))
                    && t.state_file_path@ == state_file_path@,
                Err(e) => e == VfioError::InvalidData && p_log(doc@) is None,
            },
    {
        match parse_log_doc(doc) {
            Some(changes) => Ok(StateTracker { changes, state_file_path }),
            None => Err(VfioError::InvalidData),
        }
    }

    /// Appends a confirmed change and yields the full document to
    /// persist. The caller must write it before relying on the record.
    pub fn record_change(&mut self, change: Change) -> (doc: String)
        ensures
            final(self).changes@ == old(self).changes@.push(change),
            final(self).state_file_path == old(self).state_file_path,
            doc@ == render_log(final(self).changes@.map_values(|c: Change| c@)),
    {
        self.changes.push(change);
        render_log_doc(&self.changes)
    }

    /// The current log as the document to persist.
    pub fn save_state(&self) -> (doc: String)
        ensures
            doc@ == render_log(self.changes@.map_values(|c: Change| c@)),
    {
        render_log_doc(&self.changes)
    }

    /// The undo action for one recorded change.
    pub fn undo_change(&self, change: &Change) -> (r: UndoAction)
        ensures
            r@ == undo_of(change@),
    {
        match change {
            Change::FileModified { path, backup_path } => UndoAction::RestoreFile {
                path: path.clone(),
                backup_path: backup_path.clone(),
            },
            Change::KernelParamAdded { parameter, bootloader } => UndoAction::ManualParamRemove {
                parameter: parameter.clone(),
                bootloader: bootloader.clone(),
            },
            Change::KernelParamRemoved { parameter, bootloader, original_value } =>
                UndoAction::ManualParamRestore {
                parameter: parameter.clone(),
                bootloader: bootloader.clone(),
                original_value: clone_opt(original_value),
            },
            Change::ModuleLoaded { name: _, config_path, backup_path } =>
                UndoAction::RestoreModule {
                config_path: config_path.clone(),
                backup_path: clone_opt(backup_path),
            },
            Change::DriverBound { device_bdf, new_driver: _, original_driver } =>
                UndoAction::RebindDevice {
                device_bdf: device_bdf.clone(),
                original_driver: clone_opt(original_driver),
            },
            Change::DriverUnbound { device_bdf, original_driver } => UndoAction::RebindDevice {
                device_bdf: device_bdf.clone(),
                original_driver: clone_opt(original_driver),
            },
        }
    }

    /// Drains the log and plans its undo, strictly newest first, since
    /// later changes may depend on earlier ones. The emptied log's
    /// document comes back with the plan and is persisted regardless of
    /// how the undo steps fare; the caller executes the steps, collects
    /// the failures, and folds them with `rollback_outcome`.
    pub fn rollback_all(&mut self) -> (r: (Vec<UndoAction>, String))
        ensures
            final(self).changes@.len() == 0,
            final(self).state_file_path == old(self).state_file_path,
            r.0@.len() == old(self).changes@.len(),
            forall|i: int| 0 <= i < r.0@.len() ==> (#[trigger] r.0@[i])@ == undo_of(
                old(self).changes@[old(self).changes@.len() - 1 - i]@,
            ),
            r.1@ == render_log(Seq::<ChangeV>::empty()),
    {
        let ghost orig = self.changes@;
        let mut plan: Vec<UndoAction> = Vec::new();
        proof {
            assert(self.changes@ =~= orig.take(orig.len() - plan@.len()));
        }
        while self.changes.len() > 0
            invariant
                self.changes@ == orig.take(orig.len() - plan@.len()),
                plan@.len() <= orig.len(),
                self.state_file_path == old(self).state_file_path,
                forall|i: int| 0 <= i < plan@.len() ==> (#[trigger] plan@[i])@ == undo_of(
                    orig[orig.len() - 1 - i]@,
                ),
            decreases self.changes.len(),
        {
            let popped = self.changes.pop();
            match popped {
                None => {
                    proof {
                        assert(false);
                    }
                },
                Some(c) => {
                    proof {
                        let n = orig.len() - plan@.len();
                        assert(c == orig.take(n as int)[n - 1]);
                        assert(orig.take(n as int)[n - 1] == orig[n - 1]);
                        assert(orig.take(n as int).drop_last() =~= orig.take(n - 1));
                    }
                    let a = self.undo_change(&c);
                    plan.push(a);
                },
            }
        }
        proof {
            assert(self.changes@.len() == 0);
            assert(plan@.len() == orig.len());
        }
        let doc = render_log_doc(&self.changes);
        proof {
            assert(self.changes@.map_values(|c: Change| c@) =~= Seq::<ChangeV>::empty());
        }
        (plan, doc)
    }

    /// Clears the log deliberately, once the operator confirms the
    /// configuration is permanent, and yields the empty document.
    pub fn clear_state(&mut self) -> (doc: String)
        ensures
            final(self).changes@.len() == 0,
            final(self).state_file_path == old(self).state_file_path,
            doc@ == render_log(Seq::<ChangeV>::empty()),
    {
        self.changes.clear();
        let doc = render_log_doc(&self.changes);
        proof {
            assert(self.changes@.map_values(|c: Change| c@) =~= Seq::<ChangeV>::empty());
        }
        doc
    }
}

fn clone_opt(o: &Option<String>) -> (r: Option<String>)
    ensures
        opt_view(r) == opt_view(*o),
{
    match o {
        None => None,
        Some(s) => Some(s.clone()),
    }
}

/// Folds the undo failures of a rollback: any failure makes the whole
/// rollback a partial failure, carrying every message; none means the
/// rollback completed.
pub fn rollback_outcome(errors: Vec<String>) -> (r: Result<(), VfioError>)
    ensures
        errors@.len() == 0 ==> r == Ok::<(), VfioError>(()),
        errors@.len() > 0 ==> r == Err::<(), VfioError>(VfioError::PartialFailure(errors)),
{
    if errors.len() == 0 {
        Ok(())
    } else {
        Err(VfioError::PartialFailure(errors))
    }
}


// --- the cleanup script ---

/// A BDF with its colons turned into slashes, as the sysfs device
/// directory spells it.
pub open spec fn slashed(s: Seq<char>) -> Seq<char>
    decreases s.len(),
{
    if s.len() == 0 {
        s
    } else {
        slashed(s.drop_last()).push(
            if s.last() == ':' {
                '/'
            } else {
                s.last()
            },
        )
    }
}

pub fn slashed_x(s: &String) -> (r: Vec<char>)
    ensures
        r@ == slashed(s@),
{
    let cs = chars_vec(s.as_str());
    let mut out: Vec<char> = Vec::new();
    let mut i: usize = 0;
    proof {
        assert(cs@.take(0) =~= Seq::<char>::empty());
        assert(out@ =~= slashed(cs@.take(0)));
    }
    while i < cs.len()
        invariant
            i <= cs.len(),
            cs@ == s@,
            out@ == slashed(cs@.take(i as int)),
        decreases cs.len() - i,
    {
        proof {
            assert(cs@.take(i + 1 as int).drop_last() =~= cs@.take(i as int));
            assert(cs@.take(i + 1 as int).last() == cs@[i as int]);
        }
        let c = cs[i];
        if c == ':' {
            out.push('/');
        } else {
            out.push(c);
        }
        i = i + 1;
    }
    proof {
        assert(cs@.take(cs@.len() as int) =~= cs@);
    }
    out
}

/// The shell text that reverts one change; every step tolerates an
/// already-absent backup, so the script can be re-run.
pub open spec fn script_block(c: ChangeV) -> Seq<char> {
    match c {
        ChangeV::FileModified { path, backup_path } => "# Restore file "@ + path + "\n"@
            + "if [ -f \""@ + backup_path + "\" ]; then\n"@ + "  echo \"Restoring backup "@
            + backup_path + " to "@ + path + "\"\n"@ + "  cp -f \""@ + backup_path + "\" \""@
            + path + "\" && rm -f \""@ + backup_path + "\" || echo \"Error restoring file\"\n"@
            + "else\n"@ + "  echo \"Backup file "@ + backup_path
            + " not found, cannot restore\"\n"@ + "fi\n\n"@,
        ChangeV::KernelParamAdded { parameter, bootloader } => "# Remove kernel parameter '"@
            + parameter + "' for "@ + bootloader + "\n"@
            + "echo \"Manual action needed: remove kernel parameter '"@ + parameter + "' for "@
            + bootloader + " bootloader and update\"\n\n"@,
        ChangeV::KernelParamRemoved { parameter, bootloader, original_value } =>
            "# Restore kernel parameter '"@ + parameter + "' for "@ + bootloader + "\n"@
            + "echo \"Manual action needed: restore kernel parameter '"@ + parameter + "'"@
            + (match original_value {
                Some(v) => " (original: "@ + v + ")"@,
                None => Seq::<char>::empty(),
            }) + " for "@ + bootloader + " bootloader and update\"\n\n"@,
        ChangeV::ModuleLoaded { name, config_path, backup_path } => "# Revert module load config for '"@
            + name + "' at "@ + config_path + "\n"@ + (match backup_path {
                Some(bp) => "if [ -f \""@ + bp + "\" ]; then\n"@ + "  mv -f \""@ + bp + "\" \""@
                    + config_path + "\" || echo \"Error restoring module config backup\"\n"@
                    + "else\n"@ + "  rm -f \""@ + config_path
                    + "\" || echo \"Error removing module config file\"\n"@ + "fi\n\n"@,
                None => "rm -f \""@ + config_path
                    + "\" || echo \"Error removing module config file\"\n\n"@,
            }),
        ChangeV::DriverBound { device_bdf, new_driver, original_driver } => rebind_block(
            device_bdf,
            original_driver,
        ),
        ChangeV::DriverUnbound { device_bdf, original_driver } => rebind_block(
            device_bdf,
            original_driver,
        ),
    }
}

/// The rebind text shared by the two driver change kinds.
pub open spec fn rebind_block(device_bdf: Seq<char>, original_driver: Option<Seq<char>>) -> Seq<
    char,
> {
    match original_driver {
        Some(driver) => "# Rebind device "@ + device_bdf + " to its original driver "@ + driver
            + "\n"@ + "echo -n > \"/sys/bus/pci/devices/"@ + slashed(device_bdf)
            + "/driver_override\" 2>/dev/null\n"@ + "echo \""@ + device_bdf
            + "\" > \"/sys/bus/pci/drivers/vfio-pci/unbind\" 2>/dev/null\n"@ + "echo \""@
            + device_bdf + "\" > /sys/bus/pci/drivers_probe 2>/dev/null"@
            + " || echo \"Failed to trigger re-probe for "@ + device_bdf + "\"\n\n"@,
        None => "# Original driver for "@ + device_bdf
            + " unknown, cannot automatically rebind\n"@ + "echo \"Original driver for "@
            + device_bdf
            + " unknown, cannot automatically rebind; a manual rebind or reboot may be needed\"\n\n"@,
    }
}

/// The script blocks of the recorded changes, newest first.
pub open spec fn script_blocks(cs: Seq<ChangeV>) -> Seq<char>
    decreases cs.len(),
{
    if cs.len() == 0 {
        Seq::empty()
    } else {
        script_block(cs.last()) + script_blocks(cs.drop_last())
    }
}

/// The script's opening lines.
pub open spec fn script_header() -> Seq<char> {
    "#!/bin/bash\n"@ + "# Cleanup script: reverts the recorded changes, newest first.\n"@
        + "# Run with elevated privileges; steps tolerate an already-absent backup.\n\n"@
        + "set -e # Exit on error\n\n"@
}

/// The script's closing line.
pub open spec fn script_footer() -> Seq<char> {
    "echo 'Cleanup script finished.'\n"@
}

/// The whole cleanup script for a change list.
pub open spec fn cleanup_script(cs: Seq<ChangeV>) -> Seq<char> {
    script_header() + script_blocks(cs) + script_footer()
}

/// Appends the shell text reverting one change.
#[verifier::rlimit(100)]
fn push_script_block(out: &mut Vec<char>, c: &Change)
    ensures
        final(out)@ == old(out)@ + script_block(c@),
{
    let ghost g = out@;
    match c {
        Change::FileModified { path, backup_path } => {
            append_str(out, "# Restore file ");
            append_str(out, path.as_str());
            append_str(out, "\n");
            append_str(out, "if [ -f \"");
            append_str(out, backup_path.as_str());
            append_str(out, "\" ]; then\n");
            append_str(out, "  echo \"Restoring backup ");
            append_str(out, backup_path.as_str());
            append_str(out, " to ");
            append_str(out, path.as_str());
            append_str(out, "\"\n");
            append_str(out, "  cp -f \"");
            append_str(out, backup_path.as_str());
            append_str(out, "\" \"");
            append_str(out, path.as_str());
            append_str(out, "\" && rm -f \"");
            append_str(out, backup_path.as_str());
            append_str(out, "\" || echo \"Error restoring file\"\n");
            append_str(out, "else\n");
            append_str(out, "  echo \"Backup file ");
            append_str(out, backup_path.as_str());
            append_str(out, " not found, cannot restore\"\n");
            append_str(out, "fi\n\n");
            proof {
                assert(out@ =~= g + script_block(c@));
            }
        },
        Change::KernelParamAdded { parameter, bootloader } => {
            append_str(out, "# Remove kernel parameter '");
            append_str(out, parameter.as_str());
            append_str(out, "' for ");
            append_str(out, bootloader.as_str());
            append_str(out, "\n");
            append_str(out, "echo \"Manual action needed: remove kernel parameter '");
            append_str(out, parameter.as_str());
            append_str(out, "' for ");
            append_str(out, bootloader.as_str());
            append_str(out, " bootloader and update\"\n\n");
            proof {
                assert(out@ =~= g + script_block(c@));
            }
        },
        Change::KernelParamRemoved { parameter, bootloader, original_value } => {
            append_str(out, "# Restore kernel parameter '");
            append_str(out, parameter.as_str());
            append_str(out, "' for ");
            append_str(out, bootloader.as_str());
            append_str(out, "\n");
            append_str(out, "echo \"Manual action needed: restore kernel parameter '");
            append_str(out, parameter.as_str());
            append_str(out, "'");
            match original_value {
                Some(v) => {
                    append_str(out, " (original: ");
                    append_str(out, v.as_str());
                    append_str(out, ")");
                },
                None => {},
            }
            append_str(out, " for ");
            append_str(out, bootloader.as_str());
            append_str(out, " bootloader and update\"\n\n");
            proof {
                assert(out@ =~= g + script_block(c@));
            }
        },
        Change::ModuleLoaded { name, config_path, backup_path } => {
            append_str(out, "# Revert module load config for '");
            append_str(out, name.as_str());
            append_str(out, "' at ");
            append_str(out, config_path.as_str());
            append_str(out, "\n");
            match backup_path {
                Some(bp) => {
                    append_str(out, "if [ -f \"");
                    append_str(out, bp.as_str());
                    append_str(out, "\" ]; then\n");
                    append_str(out, "  mv -f \"");
                    append_str(out, bp.as_str());
                    append_str(out, "\" \"");
                    append_str(out, config_path.as_str());
                    append_str(out, "\" || echo \"Error restoring module config backup\"\n");
                    append_str(out, "else\n");
                    append_str(out, "  rm -f \"");
                    append_str(out, config_path.as_str());
                    append_str(out, "\" || echo \"Error removing module config file\"\n");
                    append_str(out, "fi\n\n");
                },
                None => {
                    append_str(out, "rm -f \"");
                    append_str(out, config_path.as_str());
                    append_str(out, "\" || echo \"Error removing module config file\"\n\n");
                },
            }
            proof {
                assert(out@ =~= g + script_block(c@));
            }
        },
        Change::DriverBound { device_bdf, new_driver: _, original_driver } => {
            push_rebind_block(out, device_bdf, original_driver);
            proof {
                assert(out@ =~= g + script_block(c@));
            }
        },
        Change::DriverUnbound { device_bdf, original_driver } => {
            push_rebind_block(out, device_bdf, original_driver);
            proof {
                assert(out@ =~= g + script_block(c@));
            }
        },
    }
}

fn push_rebind_block(out: &mut Vec<char>, device_bdf: &String, original_driver: &Option<String>)
    ensures
        final(out)@ == old(out)@ + rebind_block(device_bdf@, opt_view(*original_driver)),
{
    let ghost g = out@;
    match original_driver {
        Some(driver) => {
            append_str(out, "# Rebind device ");
            append_str(out, device_bdf.as_str());
            append_str(out, " to its original driver ");
            append_str(out, driver.as_str());
            append_str(out, "\n");
            append_str(out, "echo -n > \"/sys/bus/pci/devices/");
            let sl = slashed_x(device_bdf);
            append_chars(out, &sl);
            append_str(out, "/driver_override\" 2>/dev/null\n");
            append_str(out, "echo \"");
            append_str(out, device_bdf.as_str());
            append_str(out, "\" > \"/sys/bus/pci/drivers/vfio-pci/unbind\" 2>/dev/null\n");
            append_str(out, "echo \"");
            append_str(out, device_bdf.as_str());
            append_str(out, "\" > /sys/bus/pci/drivers_probe 2>/dev/null");
            append_str(out, " || echo \"Failed to trigger re-probe for ");
            append_str(out, device_bdf.as_str());
            append_str(out, "\"\n\n");
            proof {
                assert(out@ =~= g + rebind_block(device_bdf@, opt_view(*original_driver)));
            }
        },
        None => {
            append_str(out, "# Original driver for ");
            append_str(out, device_bdf.as_str());
            append_str(out, " unknown, cannot automatically rebind\n");
            append_str(out, "echo \"Original driver for ");
            append_str(out, device_bdf.as_str());
            append_str(
                out,
                " unknown, cannot automatically rebind; a manual rebind or reboot may be needed\"\n\n",
            );
            proof {
                assert(out@ =~= g + rebind_block(device_bdf@, opt_view(*original_driver)));
            }
        },
    }
}

impl StateTracker {
    /// Renders, without executing, a shell script that performs the same
    /// undo work, newest change first, safe to review or to run later
    /// from a rescue environment.
    pub fn generate_cleanup_script(&self) -> (r: String)
        ensures
            r@ == cleanup_script(self.changes@.map_values(|c: Change| c@)),
    {
        let ghost m = self.changes@.map_values(|c: Change| c@);
        let mut out: Vec<char> = Vec::new();
        append_str(&mut out, "#!/bin/bash\n");
        append_str(&mut out, "# Cleanup script: reverts the recorded changes, newest first.\n");
        append_str(
            &mut out,
            "# Run with elevated privileges; steps tolerate an already-absent backup.\n\n",
        );
        append_str(&mut out, "set -e # Exit on error\n\n");
        proof {
            assert(out@ =~= script_header());
        }
        let mut k: usize = self.changes.len();
        proof {
            assert(m.take(k as int) =~= m);
            assert(out@ + script_blocks(m.take(k as int)) =~= script_header() + script_blocks(m));
        }
        while k > 0
            invariant
                k <= self.changes@.len(),
                m == self.changes@.map_values(|c: Change| c@),
                out@ + script_blocks(m.take(k as int)) =~= script_header() + script_blocks(m),
            decreases k,
        {
            let ghost g = out@;
            proof {
                assert(m.take(k as int).drop_last() =~= m.take(k - 1));
                assert(m.take(k as int).last() == m[k - 1]);
                assert(script_blocks(m.take(k as int)) == script_block(m[k - 1]) + script_blocks(
                    m.take(k - 1),
                ));
            }
            push_script_block(&mut out, &self.changes[k - 1]);
            proof {
                assert(out@ + script_blocks(m.take(k - 1)) =~= g + script_blocks(
                    m.take(k as int),
                ));
            }
            k = k - 1;
        }
        proof {
            assert(m.take(0) =~= Seq::<ChangeV>::empty());
            assert(out@ =~= script_header() + script_blocks(m));
        }
        append_str(&mut out, "echo 'Cleanup script finished.'\n");
        proof {
            assert(out@ =~= cleanup_script(m));
        }
        chars_to_string(&out)
    }
}

} // verus!
