//! Shared helpers: the backup-name scheme and external-command argument
//! splitting.

use vstd::prelude::*;
use vstd::string::*;
use crate::strutil::{chars_vec, chars_to_string, split_ws, split_whitespace_chars};

verus! {

/// Relies on `chrono::Local::now` and `chrono::DateTime::format`: yields
/// the local time as a `%Y%m%d_%H%M%S` stamp. The result depends on the
/// clock and time zone, so nothing is promised of it.
#[verifier::external_body]
fn now_stamp() -> String {
    chrono::Local::now().format("%Y%m%d_%H%M%S").to_string()
}

/// Where the backup of a file goes: beside the file, its name extended
/// with `.backup_` and the stamp.
pub open spec fn spec_backup_path(path: Seq<char>, stamp: Seq<char>) -> Seq<char> {
    path + ".backup_"@ + stamp
}

/// The backup path for `file_path` under the given stamp.
pub fn backup_path_for(file_path: &str, stamp: &str) -> (r: String)
    ensures
        r@ == spec_backup_path(file_path@, stamp@),
{
    let mut out = chars_vec(file_path);
    let mid = chars_vec(".backup_");
    let end = chars_vec(stamp);
    let ghost g0 = out@;
    let mut i: usize = 0;
    while i < mid.len()
        invariant
            i <= mid.len(),
            out@ == g0 + mid@.take(i as int),
        decreases mid.len() - i,
    {
        out.push(mid[i]);
        proof {
            assert(out@ =~= g0 + mid@.take(i + 1 as int));
        }
        i = i + 1;
    }
    let ghost g1 = out@;
    let mut j: usize = 0;
    while j < end.len()
        invariant
            j <= end.len(),
            out@ == g1 + end@.take(j as int),
        decreases end.len() - j,
    {
        out.push(end[j]);
        proof {
            assert(out@ =~= g1 + end@.take(j + 1 as int));
        }
        j = j + 1;
    }
    proof {
        assert(mid@.take(mid@.len() as int) =~= mid@);
        assert(end@.take(end@.len() as int) =~= end@);
        assert(out@ =~= spec_backup_path(file_path@, stamp@));
    }
    chars_to_string(&out)
}

/// Names the timestamped backup of a file. The copy itself is file I/O
/// and is left to the caller; a missing file needs no backup and keeps
/// its own name, as the second component reports.
pub fn create_timestamped_backup(file_path: &str, file_exists: bool) -> (r: (String, bool))
    ensures
        r.1 == file_exists,
        !file_exists ==> r.0@ == file_path@,
        file_exists ==> exists|st: Seq<char>| r.0@ == spec_backup_path(file_path@, st),
{
    if !file_exists {
        return (String::from_str(file_path), false);
    }
    let stamp = now_stamp();
    let p = backup_path_for(file_path, stamp.as_str());
    proof {
        assert(p@ == spec_backup_path(file_path@, stamp@));
    }
    (p, true)
}

/// Splits a command line into the program and its arguments; an empty
/// command is refused. Running the child is left to the caller.
pub fn run_command(command: &str) -> (r: Result<Vec<String>, String>)
    ensures
        match r {
            Ok(argv) => argv@.map_values(|s: String| s@) == split_ws(command@)
                && split_ws(command@).len() > 0,
            Err(msg) => split_ws(command@).len() == 0 && msg@ == "Empty command"@,
        },
{
    let cs = chars_vec(command);
    let parts = split_whitespace_chars(&cs);
    if parts.len() == 0 {
        return Err(String::from_str("Empty command"));
    }
    let mut out: Vec<String> = Vec::new();
    let mut i: usize = 0;
    while i < parts.len()
        invariant
            i <= parts.len(),
            out@.map_values(|s: String| s@)
                == parts@.map_values(|t: Vec<char>| t@).take(i as int),
        decreases parts.len() - i,
    {
        let ghost om = out@.map_values(|s: String| s@);
        out.push(chars_to_string(&parts[i]));
        proof {
            assert(out@.map_values(|s: String| s@)
                =~= om.push(parts@.map_values(|t: Vec<char>| t@)[i as int]));
            assert(om.push(parts@.map_values(|t: Vec<char>| t@)[i as int])
                =~= parts@.map_values(|t: Vec<char>| t@).take(i + 1 as int));
        }
        i = i + 1;
    }
    proof {
        let pm = parts@.map_values(|t: Vec<char>| t@);
        assert(pm.take(pm.len() as int) =~= pm);
    }
    Ok(out)
}

} // verus!
