use vstd::prelude::*;
use crate::text::{decimal, owned, split_whitespace, to_decimal, views, words};

verus! {

/// The command that finds the other running processes of the program
/// `exe_name`: `pidof exe_name -o my_pid`.
pub open spec fn pidof_command_of(exe_name: Seq<char>, my_pid: u32) -> Seq<Seq<char>> {
    seq!["pidof"@, exe_name, "-o"@, decimal(my_pid as nat)]
}

/// The command that finds the other running processes of the program
/// `exe_name`, leaving out the process `my_pid`.
pub fn pidof_command(exe_name: &str, my_pid: u32) -> (r: Vec<String>)
    ensures
        views(r@) == pidof_command_of(exe_name@, my_pid),
{
    let mut r: Vec<String> = Vec::new();
    r.push(owned("pidof"));
    r.push(owned(exe_name));
    r.push(owned("-o"));
    r.push(to_decimal(my_pid as u64));
    assert(views(r@) =~= pidof_command_of(exe_name@, my_pid));
    r
}

/// The process ids that `pidof` printed: its output cut at white space.
pub fn parse_pids(output: &str) -> (r: Vec<String>)
    ensures
        views(r@) == words(output@),
{
    split_whitespace(output)
}

/// Whether the daemon runs, given the ids of the other processes of this
/// program: it does when there is any.
pub fn is_daemon_running(pids: &Vec<String>) -> (r: bool)
    ensures
        r == (pids@.len() > 0),
{
    pids.len() > 0
}

} // verus!
