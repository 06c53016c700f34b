//! The single-file inline bootloader backend: kernel parameters live in one
//! quoted `GRUB_CMDLINE_LINUX_DEFAULT=...` assignment inside one
//! configuration file.
//!
//! The grammar tolerated is: optional leading blanks, the assignment key,
//! blanks, `=`, blanks, a single or double quote, the payload (up to the
//! next identical quote), which must be closed. Rewriting replaces only the
//! quoted payload and keeps every other byte of the file; when no line
//! matches, a fresh, correctly quoted line is appended.

use vstd::prelude::*;
use crate::strutil::{chars_vec, chars_to_string, split_nl, split_ws, join_with, match_at, match_at_x,
    split_lines_chars, split_whitespace_chars, join_chars, strings_to_tokens,
    tokens_to_strings};
use crate::params::{spec_add, spec_add_changed, spec_remove, spec_remove_changed,
    spec_render_line, add_tokens, remove_tokens, render_line};
use crate::errors::VfioError;

verus! {

/// Blank characters inside a configuration line.
pub open spec fn is_blank(c: char) -> bool {
    c == ' ' || c == '\t'
}

/// The assignment key the backend edits.
pub open spec fn cmdline_key() -> Seq<char> {
    "GRUB_CMDLINE_LINUX_DEFAULT"@
}

/// First non-blank position at or after `i`.
pub open spec fn skip_blanks(s: Seq<char>, i: int) -> int
    decreases s.len() - i,
{
    if 0 <= i < s.len() && is_blank(s[i]) {
        skip_blanks(s, i + 1)
    } else {
        i
    }
}

/// First position of `ch` at or after `i`, or the length when absent.
pub open spec fn find_from(s: Seq<char>, i: int, ch: char) -> int
    decreases s.len() - i,
{
    if 0 <= i < s.len() {
        if s[i] == ch {
            i
        } else {
            find_from(s, i + 1, ch)
        }
    } else {
        s.len() as int
    }
}

/// Where a line matches the quoted assignment: the half-open character
/// range of the payload between the quotes, or `None`.
pub open spec fn line_match(s: Seq<char>) -> Option<(int, int)> {
    let a = skip_blanks(s, 0);
    if !match_at(s, a, cmdline_key()) {
        None
    } else {
        let b = skip_blanks(s, a + cmdline_key().len());
        if !(b < s.len() && s[b] == '=') {
            None
        } else {
            let c = skip_blanks(s, b + 1);
            if !(c < s.len() && (s[c] == '"' || s[c] == '\'')) {
                None
            } else {
                let e = find_from(s, c + 1, s[c]);
                if e < s.len() {
                    Some((c + 1, e))
                } else {
                    None
                }
            }
        }
    }
}

fn skip_blanks_x(v: &Vec<char>, i: usize) -> (r: usize)
    requires
        i <= v.len(),
    ensures
        r as int == skip_blanks(v@, i as int),
        i <= r <= v.len(),
    decreases v.len() - i,
{
    if i < v.len() && (v[i] == ' ' || v[i] == '\t') {
        skip_blanks_x(v, i + 1)
    } else {
        i
    }
}

pub fn find_from_x(v: &Vec<char>, i: usize, ch: char) -> (r: usize)
    requires
        i <= v.len(),
    ensures
        r as int == find_from(v@, i as int, ch),
        i <= r <= v.len(),
    decreases v.len() - i,
{
    if i < v.len() {
        if v[i] == ch {
            i
        } else {
            find_from_x(v, i + 1, ch)
        }
    } else {
        v.len()
    }
}

/// Finds the quoted-assignment payload range in one line.
pub fn match_line(v: &Vec<char>) -> (r: Option<(usize, usize)>)
    ensures
        line_match(v@) == match r {
            Some(p) => Some((p.0 as int, p.1 as int)),
            None => None::<(int, int)>,
        },
        r matches Some(p) ==> p.0 <= p.1 < v.len(),
{
    let key = chars_vec("GRUB_CMDLINE_LINUX_DEFAULT");
    let a = skip_blanks_x(v, 0);
    if !match_at_x(v, a, &key) {
        return None;
    }
    let b = skip_blanks_x(v, a + key.len());
    if !(b < v.len() && v[b] == '=') {
        return None;
    }
    let c = skip_blanks_x(v, b + 1);
    if !(c < v.len() && (v[c] == '"' || v[c] == '\'')) {
        return None;
    }
    let e = find_from_x(v, c + 1, v[c]);
    if e < v.len() {
        Some((c + 1, e))
    } else {
        None
    }
}

/// Index of the first line holding the quoted assignment, from `i` on.
pub open spec fn first_match(lines: Seq<Seq<char>>, i: int) -> Option<int>
    decreases lines.len() - i,
{
    if 0 <= i < lines.len() {
        if line_match(lines[i]) is Some {
            Some(i)
        } else {
            first_match(lines, i + 1)
        }
    } else {
        None
    }
}

/// The current parameter payload of the configuration text: the text
/// between the quotes of the first matching line, or empty when no line
/// matches.
pub open spec fn spec_payload(content: Seq<char>) -> Seq<char> {
    let ls = split_nl(content);
    match first_match(ls, 0) {
        None => Seq::empty(),
        Some(i) => match line_match(ls[i]) {
            Some((ps, pe)) => ls[i].subrange(ps, pe),
            None => Seq::empty(),
        },
    }
}

/// The configuration text after the payload is replaced: the first
/// matching line keeps every character outside its quotes, every other
/// line is untouched; with no matching line a fresh assignment is
/// appended.
pub open spec fn spec_rewrite(content: Seq<char>, newp: Seq<char>) -> Seq<char> {
    let ls = split_nl(content);
    match first_match(ls, 0) {
        Some(i) => match line_match(ls[i]) {
            Some((ps, pe)) => join_with(
                ls.update(i, ls[i].take(ps) + newp + ls[i].skip(pe)),
                '\n',
            ),
            None => content,
        },
        None => content + "\nGRUB_CMDLINE_LINUX_DEFAULT=\""@ + newp + "\"\n"@,
    }
}

/// Extracts the current payload of the configuration text.
pub fn payload_of(content: &Vec<char>) -> (r: Vec<char>)
    ensures
        r@ == spec_payload(content@),
{
    let lines = split_lines_chars(content);
    let ghost m = lines@.map_values(|t: Vec<char>| t@);
    let mut i: usize = 0;
    while i < lines.len()
        invariant
            i <= lines.len(),
            m == lines@.map_values(|t: Vec<char>| t@),
            m == split_nl(content@),
            first_match(m, 0) == first_match(m, i as int),
        decreases lines.len() - i,
    {
        if let Some((ps, pe)) = match_line(&lines[i]) {
            proof {
                assert(first_match(m, i as int) == Some(i as int));
            }
            let line = &lines[i];
            let mut out: Vec<char> = Vec::new();
            let mut k: usize = ps;
            while k < pe
                invariant
                    ps <= k <= pe,
                    pe <= line@.len(),
                    out@ == line@.subrange(ps as int, k as int),
                decreases pe - k,
            {
                out.push(line[k]);
                proof {
                    assert(out@ =~= line@.subrange(ps as int, k + 1 as int));
                }
                k = k + 1;
            }
            return out;
        }
        i = i + 1;
    }
    proof {
        assert(first_match(m, i as int) is None);
    }
    Vec::new()
}

/// Rewrites the configuration text with a new payload.
pub fn rewrite_content(content: &Vec<char>, newp: &Vec<char>) -> (r: Vec<char>)
    ensures
        r@ == spec_rewrite(content@, newp@),
{
    let lines = split_lines_chars(content);
    let ghost m = lines@.map_values(|t: Vec<char>| t@);
    let mut i: usize = 0;
    while i < lines.len()
        invariant
            i <= lines.len(),
            m == lines@.map_values(|t: Vec<char>| t@),
            m == split_nl(content@),
            first_match(m, 0) == first_match(m, i as int),
        decreases lines.len() - i,
    {
        if let Some((ps, pe)) = match_line(&lines[i]) {
            proof {
                assert(first_match(m, i as int) == Some(i as int));
            }
            let line = &lines[i];
            // the rewritten line: prefix, new payload, suffix
            let mut nl: Vec<char> = Vec::new();
            let mut k: usize = 0;
            while k < ps
                invariant
                    k <= ps,
                    ps <= line@.len(),
                    nl@ == line@.take(k as int),
                decreases ps - k,
            {
                nl.push(line[k]);
                proof {
                    assert(nl@ =~= line@.take(k + 1 as int));
                }
                k = k + 1;
            }
            let mut k2: usize = 0;
            let ghost base = nl@;
            while k2 < newp.len()
                invariant
                    k2 <= newp.len(),
                    nl@ == base + newp@.take(k2 as int),
                decreases newp.len() - k2,
            {
                nl.push(newp[k2]);
                proof {
                    assert(nl@ =~= base + newp@.take(k2 + 1 as int));
                }
                k2 = k2 + 1;
            }
            let mut k3: usize = pe;
            let ghost base2 = nl@;
            while k3 < line.len()
                invariant
                    pe <= k3 <= line@.len(),
                    nl@ == base2 + line@.subrange(pe as int, k3 as int),
                decreases line.len() - k3,
            {
                nl.push(line[k3]);
                proof {
                    assert(nl@ =~= base2 + line@.subrange(pe as int, k3 + 1 as int));
                }
                k3 = k3 + 1;
            }
            proof {
                assert(newp@.take(newp@.len() as int) =~= newp@);
                assert(line@.subrange(pe as int, line@.len() as int) =~= line@.skip(pe as int));
                assert(nl@ =~= line@.take(ps as int) + newp@ + line@.skip(pe as int));
            }
            // rebuild the line list with only this line changed
            let mut out_lines: Vec<Vec<char>> = Vec::new();
            let mut j: usize = 0;
            let ghost upd = m.update(i as int, nl@);
            while j < lines.len()
                invariant
                    j <= lines.len(),
                    i < lines.len(),
                    m == lines@.map_values(|t: Vec<char>| t@),
                    upd == m.update(i as int, nl@),
                    nl@ == upd[i as int],
                    out_lines@.map_values(|t: Vec<char>| t@) == upd.take(j as int),
                decreases lines.len() - j,
            {
                let ghost om = out_lines@.map_values(|t: Vec<char>| t@);
                if j == i {
                    out_lines.push(nl.clone());
                } else {
                    out_lines.push(lines[j].clone());
                }
                proof {
                    assert(out_lines@.map_values(|t: Vec<char>| t@) =~= om.push(upd[j as int]));
                    assert(om.push(upd[j as int]) =~= upd.take(j + 1 as int));
                }
                j = j + 1;
            }
            proof {
                assert(upd.take(upd.len() as int) =~= upd);
            }
            return join_chars(&out_lines, '\n');
        }
        i = i + 1;
    }
    proof {
        assert(first_match(m, i as int) is None);
    }
    // no assignment line: append a fresh, correctly quoted one
    let mut out: Vec<char> = content.clone();
    let head = chars_vec("\nGRUB_CMDLINE_LINUX_DEFAULT=\"");
    let tail = chars_vec("\"\n");
    let ghost g0 = out@;
    let mut a: usize = 0;
    while a < head.len()
        invariant
            a <= head.len(),
            out@ == g0 + head@.take(a as int),
        decreases head.len() - a,
    {
        out.push(head[a]);
        proof {
            assert(out@ =~= g0 + head@.take(a + 1 as int));
        }
        a = a + 1;
    }
    let ghost g1 = out@;
    let mut b: usize = 0;
    while b < newp.len()
        invariant
            b <= newp.len(),
            out@ == g1 + newp@.take(b as int),
        decreases newp.len() - b,
    {
        out.push(newp[b]);
        proof {
            assert(out@ =~= g1 + newp@.take(b + 1 as int));
        }
        b = b + 1;
    }
    let ghost g2 = out@;
    let mut c: usize = 0;
    while c < tail.len()
        invariant
            c <= tail.len(),
            out@ == g2 + tail@.take(c as int),
        decreases tail.len() - c,
    {
        out.push(tail[c]);
        proof {
            assert(out@ =~= g2 + tail@.take(c + 1 as int));
        }
        c = c + 1;
    }
    proof {
        assert(head@.take(head@.len() as int) =~= head@);
        assert(newp@.take(newp@.len() as int) =~= newp@);
        assert(tail@.take(tail@.len() as int) =~= tail@);
        assert(out@ =~= content@ + "\nGRUB_CMDLINE_LINUX_DEFAULT=\""@ + newp@ + "\"\n"@);
    }
    out
}


/// The parameters currently configured, as one spec-level view of an
/// optional file text: a missing file reads as empty.
pub open spec fn spec_current_tokens(content: Option<Seq<char>>) -> Seq<Seq<char>> {
    match content {
        Some(c) => split_ws(spec_payload(c)),
        None => Seq::empty(),
    }
}

/// The view of an optional borrowed file text.
pub open spec fn content_view(content: Option<&String>) -> Option<Seq<char>> {
    match content {
        Some(c) => Some(c@),
        None => None,
    }
}

/// One edit of the single-file backend: whether the parameters changed,
/// and the full new file text when a write is due. `new_content` is
/// `None` under dry-run or when nothing changed, so the caller writes
/// nothing.
#[derive(Debug)]
pub struct GrubEdit {
    pub changed: bool,
    pub new_content: Option<String>,
}

/// The single-file inline backend: parameters live in one quoted
/// assignment inside one configuration file.
pub struct GrubConfig {
    pub default_grub_path: String,
}

impl GrubConfig {
    pub fn new() -> (r: GrubConfig)
        ensures
            r.default_grub_path@ == "/etc/default/grub"@,
    {
        GrubConfig { default_grub_path: String::from_str("/etc/default/grub") }
    }

    /// The configured kernel parameters. A missing file is not an error
    /// and reads as no parameters.
    pub fn get_config_parameters(&self, content: Option<&String>) -> (r: Vec<String>)
        ensures
            r@.map_values(|s: String| s@) == spec_current_tokens(content_view(content)),
    {
        match content {
            None => Vec::new(),
            Some(c) => {
                let cs = chars_vec(c.as_str());
                let payload = payload_of(&cs);
                let toks = split_whitespace_chars(&payload);
                tokens_to_strings(&toks)
            },
        }
    }

    /// Reconciles an add request against the file text and yields the
    /// new text to persist. Under dry-run, or when nothing changes, no
    /// text is produced and nothing is to be written; a write due on a
    /// missing file fails with `NotFound`.
    pub fn add_parameters(
        &self,
        content: Option<&String>,
        params: &Vec<String>,
        dry_run: bool,
    ) -> (r: Result<GrubEdit, VfioError>)
        ensures
            ({
                let cur = spec_current_tokens(content_view(content));
                let rm = params@.map_values(|s: String| s@);
                let changed = spec_add_changed(cur, rm);
                match r {
                    Err(e) => e == VfioError::NotFound && content is None && changed && !dry_run,
                    Ok(edit) => {
                        &&& edit.changed == changed
                        &&& (edit.new_content is Some <==> (changed && !dry_run))
                        &&& match edit.new_content {
                            Some(nc) => content matches Some(c) && nc@ == spec_rewrite(
                                c@,
                                spec_render_line(spec_add(cur, rm)),
                            ),
                            None => true,
                        }
                    },
                }
            }),
    {
        let cur = match content {
            None => Vec::new(),
            Some(c) => {
                let cs = chars_vec(c.as_str());
                let payload = payload_of(&cs);
                split_whitespace_chars(&payload)
            },
        };
        proof {
            assert(cur@.map_values(|t: Vec<char>| t@)
                == spec_current_tokens(content_view(content))) by {
                if content is None {
                    assert(cur@.map_values(|t: Vec<char>| t@) =~= Seq::<Seq<char>>::empty());
                }
            }
        }
        let reqs = strings_to_tokens(params);
        let (newtoks, changed) = add_tokens(&cur, &reqs);
        if !changed {
            return Ok(GrubEdit { changed: false, new_content: None });
        }
        if dry_run {
            return Ok(GrubEdit { changed: true, new_content: None });
        }
        match content {
            None => Err(VfioError::NotFound),
            Some(c) => {
                let line = render_line(&newtoks);
                let cs = chars_vec(c.as_str());
                let rewritten = rewrite_content(&cs, &line);
                Ok(GrubEdit { changed: true, new_content: Some(chars_to_string(&rewritten)) })
            },
        }
    }

    /// Reconciles a remove request against the file text, in the same
    /// shape as `add_parameters`.
    pub fn remove_parameters(
        &self,
        content: Option<&String>,
        params: &Vec<String>,
        dry_run: bool,
    ) -> (r: Result<GrubEdit, VfioError>)
        ensures
            ({
                let cur = spec_current_tokens(content_view(content));
                let rm = params@.map_values(|s: String| s@);
                let changed = spec_remove_changed(cur, rm);
                match r {
                    Err(e) => e == VfioError::NotFound && content is None && changed && !dry_run,
                    Ok(edit) => {
                        &&& edit.changed == changed
                        &&& (edit.new_content is Some <==> (changed && !dry_run))
                        &&& match edit.new_content {
                            Some(nc) => content matches Some(c) && nc@ == spec_rewrite(
                                c@,
                                spec_render_line(spec_remove(cur, rm)),
                            ),
                            None => true,
                        }
                    },
                }
            }),
    {
        let cur = match content {
            None => Vec::new(),
            Some(c) => {
                let cs = chars_vec(c.as_str());
                let payload = payload_of(&cs);
                split_whitespace_chars(&payload)
            },
        };
        proof {
            assert(cur@.map_values(|t: Vec<char>| t@)
                == spec_current_tokens(content_view(content))) by {
                if content is None {
                    assert(cur@.map_values(|t: Vec<char>| t@) =~= Seq::<Seq<char>>::empty());
                }
            }
        }
        let reqs = strings_to_tokens(params);
        let (newtoks, changed) = remove_tokens(&cur, &reqs);
        if !changed {
            return Ok(GrubEdit { changed: false, new_content: None });
        }
        if dry_run {
            return Ok(GrubEdit { changed: true, new_content: None });
        }
        match content {
            None => Err(VfioError::NotFound),
            Some(c) => {
                let line = render_line(&newtoks);
                let cs = chars_vec(c.as_str());
                let rewritten = rewrite_content(&cs, &line);
                Ok(GrubEdit { changed: true, new_content: Some(chars_to_string(&rewritten)) })
            },
        }
    }

    /// Names the backup for the configuration file; the copy is the
    /// caller's file I/O. A missing file needs no copy and keeps its
    /// own name.
    pub fn create_backup(&self, file_exists: bool) -> (r: Vec<String>)
        ensures
            r@.len() == 1,
            !file_exists ==> r@[0]@ == self.default_grub_path@,
            file_exists ==> exists|st: Seq<char>|
                r@[0]@ == crate::utils::spec_backup_path(self.default_grub_path@, st),
    {
        let (p, _copy) = crate::utils::create_timestamped_backup(
            self.default_grub_path.as_str(),
            file_exists,
        );
        let mut out: Vec<String> = Vec::new();
        out.push(p);
        out
    }
}

/// Which regeneration tools and outputs are present on the host, probed
/// by the caller.
pub struct GrubTools {
    pub update_grub: bool,
    pub grub2_mkconfig: bool,
    pub fedora_cfg: bool,
    pub grub2_cfg: bool,
    pub grub_mkconfig: bool,
}

/// The activation step: which command regenerates the boot configuration,
/// and whether to run it now.
#[derive(Debug)]
pub struct UpdatePlan {
    pub command: Option<Vec<String>>,
    pub execute: bool,
}

impl GrubConfig {
    /// Picks the regeneration command for the probed tools. With no known
    /// tool present the step fails with `NotFound`, dry-run or not, and
    /// nothing is to be run or recorded. `grub2-mkconfig` without a known
    /// output path is tolerated: no command, and no error.
    pub fn update_bootloader(&self, tools: &GrubTools, dry_run: bool) -> (r: Result<
        UpdatePlan,
        VfioError,
    >)
        ensures
            ({
                let no_tool = !tools.update_grub && !tools.grub2_mkconfig && !tools.grub_mkconfig;
                match r {
                    Err(e) => e == VfioError::NotFound && no_tool,
                    Ok(plan) => {
                        &&& !no_tool
                        &&& plan.execute == (!dry_run && plan.command is Some)
                        &&& if tools.update_grub {
                            plan.command matches Some(cmd)
                                && cmd@.map_values(|s: String| s@)
                                    =~= seq!["sudo"@, "update-grub"@]
                        } else if tools.grub2_mkconfig {
                            if tools.fedora_cfg {
                                plan.command matches Some(cmd)
                                    && cmd@.map_values(|s: String| s@) =~= seq![
                                    "sudo"@,
                                    "grub2-mkconfig"@,
                                    "-o"@,
                                    "/boot/efi/EFI/fedora/grub.cfg"@,
                                ]
                            } else if tools.grub2_cfg {
                                plan.command matches Some(cmd)
                                    && cmd@.map_values(|s: String| s@) =~= seq![
                                    "sudo"@,
                                    "grub2-mkconfig"@,
                                    "-o"@,
                                    "/boot/grub2/grub.cfg"@,
                                ]
                            } else {
                                plan.command is None
                            }
                        } else {
                            plan.command matches Some(cmd)
                                && cmd@.map_values(|s: String| s@) =~= seq![
                                "sudo"@,
                                "grub-mkconfig"@,
                                "-o"@,
                                "/boot/grub/grub.cfg"@,
                            ]
                        }
                    },
                }
            }),
    {
        let command: Option<Vec<String>> = if tools.update_grub {
            let mut c: Vec<String> = Vec::new();
            c.push(String::from_str("sudo"));
            c.push(String::from_str("update-grub"));
            proof {
                assert(c@.map_values(|s: String| s@) =~= seq!["sudo"@, "update-grub"@]);
            }
            Some(c)
        } else if tools.grub2_mkconfig {
            if tools.fedora_cfg {
                let mut c: Vec<String> = Vec::new();
                c.push(String::from_str("sudo"));
                c.push(String::from_str("grub2-mkconfig"));
                c.push(String::from_str("-o"));
                c.push(String::from_str("/boot/efi/EFI/fedora/grub.cfg"));
                proof {
                    assert(c@.map_values(|s: String| s@) =~= seq![
                        "sudo"@,
                        "grub2-mkconfig"@,
                        "-o"@,
                        "/boot/efi/EFI/fedora/grub.cfg"@,
                    ]);
                }
                Some(c)
            } else if tools.grub2_cfg {
                let mut c: Vec<String> = Vec::new();
                c.push(String::from_str("sudo"));
                c.push(String::from_str("grub2-mkconfig"));
                c.push(String::from_str("-o"));
                c.push(String::from_str("/boot/grub2/grub.cfg"));
                proof {
                    assert(c@.map_values(|s: String| s@) =~= seq![
                        "sudo"@,
                        "grub2-mkconfig"@,
                        "-o"@,
                        "/boot/grub2/grub.cfg"@,
                    ]);
                }
                Some(c)
            } else {
                None
            }
        } else if tools.grub_mkconfig {
            let mut c: Vec<String> = Vec::new();
            c.push(String::from_str("sudo"));
            c.push(String::from_str("grub-mkconfig"));
            c.push(String::from_str("-o"));
            c.push(String::from_str("/boot/grub/grub.cfg"));
            proof {
                assert(c@.map_values(|s: String| s@) =~= seq![
                    "sudo"@,
                    "grub-mkconfig"@,
                    "-o"@,
                    "/boot/grub/grub.cfg"@,
                ]);
            }
            Some(c)
        } else {
            return Err(VfioError::NotFound);
        };
        let execute = !dry_run && command.is_some();
        Ok(UpdatePlan { command, execute })
    }
}

} // verus!
