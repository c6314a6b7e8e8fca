//! Names in the process file system: where the files of a process lie, and
//! which entries of the root directory are processes.

use crate::decimal::{decimal, parse_i32, push_decimal, signed_fits, signed_value};
use crate::error::Error;
use crate::process::PID;
use crate::text::{chars_of, string_of, trim_newline, without_newline};
use vstd::prelude::*;

verus! {

/// The directory of the process file system, with the separator behind it.
pub open spec fn root() -> Seq<char> {
    seq!['/', 'p', 'r', 'o', 'c', '/']
}

/// The path of the file `name` of the process `pid`: `/proc/`, the id, a
/// separator, and the name. An empty name gives the directory of the
/// process. A name that begins with the separator is a path from the root
/// of the file system already, and stands for itself.
pub open spec fn path_of(pid: int, name: Seq<char>) -> Seq<char> {
    if name.len() > 0 && name[0] == '/' {
        name
    } else {
        root() + decimal(pid) + seq!['/'] + name
    }
}

/// The process that an entry of the root directory belongs to: the number
/// that its name writes, where the name writes one that is greater than
/// zero and fits a process id.
pub open spec fn process_of(name: Seq<char>) -> Option<PID> {
    if signed_fits(name, 1, i32::MAX as int) {
        Some(signed_value(name) as PID)
    } else {
        None
    }
}

/// The process id that a pid file holds: the number that its contents
/// write, a newline at the end dropped, where they write one that fits a
/// process id.
pub open spec fn pid_in(contents: Seq<char>) -> Result<PID, Error> {
    if signed_fits(without_newline(contents), i32::MIN as int, i32::MAX as int) {
        Ok(signed_value(without_newline(contents)) as PID)
    } else {
        Err(Error::Parse { field: 0 })
    }
}

/// The path of the file `name` of the process `pid`.
pub fn procfs_path(pid: PID, name: &str) -> (r: String)
    ensures
        r@ == path_of(pid as int, name@),
{
    let file = chars_of(name);
    if file.len() > 0 && file[0] == '/' {
        return string_of(file.as_slice());
    }
    let mut out: Vec<char> = Vec::new();
    out.push('/');
    out.push('p');
    out.push('r');
    out.push('o');
    out.push('c');
    out.push('/');
    proof {
        assert(out@ =~= root());
    }
    push_decimal(&mut out, pid as i64);
    out.push('/');
    let ghost prefix = out@;
    let mut i: usize = 0;
    while i < file.len()
        invariant
            i <= file@.len(),
            out@ == prefix + file@.take(i as int),
        decreases file@.len() - i,
    {
        out.push(file[i]);
        proof {
            assert(file@.take(i as int).push(file@[i as int]) =~= file@.take(i + 1));
            assert(out@ =~= prefix + file@.take(i + 1));
        }
        i += 1;
    }
    proof {
        assert(file@.take(file@.len() as int) =~= file@);
        assert(out@ =~= path_of(pid as int, name@));
    }
    string_of(out.as_slice())
}

/// The process that an entry of the root directory belongs to, if its name
/// is that of a process.
pub fn entry_pid(name: &str) -> (r: Option<PID>)
    ensures
        r == process_of(name@),
{
    let chars = chars_of(name);
    match parse_i32(chars.as_slice()) {
        Some(pid) => {
            if pid > 0 {
                Some(pid)
            } else {
                None
            }
        },
        None => None,
    }
}

/// The process id that the contents of a pid file write.
pub fn pidfile_pid(contents: &str) -> (r: Result<PID, Error>)
    ensures
        r == pid_in(contents@),
{
    let chars = chars_of(contents);
    match parse_i32(trim_newline(chars.as_slice())) {
        Some(pid) => Ok(pid),
        None => Err(Error::Parse { field: 0 }),
    }
}

} // verus!
