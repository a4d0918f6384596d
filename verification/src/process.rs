//! `RUN`: how a command line becomes a program and its arguments, and
//! where the program is looked for. Spawning it is I/O and happens outside
//! this library; here are the decisions around it.
use vstd::prelude::*;
use vstd::string::*;

use crate::ast::OwnershipKind;
use crate::text::{owned, str_chars, strings_of, words, words_of};

verus! {

/// Why a `RUN` could not launch.
#[derive(Debug)]
pub struct ProcessError(String);

impl View for ProcessError {
    type V = Seq<char>;

    closed spec fn view(&self) -> Seq<char> {
        self.0@
    }
}

impl ProcessError {
    pub fn new(message: String) -> (r: Self)
        ensures
            r@ == message@,
    {
        ProcessError(message)
    }

    /// The text of the error.
    pub fn message(&self) -> (r: &str)
        ensures
            r@ == self@,
    {
        self.0.as_str()
    }
}

/// The shared system binary directories, in search order.
pub open spec fn system_bin_dirs_spec() -> Seq<Seq<char>> {
    seq![
        "/usr/local/sbin"@,
        "/usr/local/bin"@,
        "/usr/sbin"@,
        "/usr/bin"@,
        "/sbin"@,
        "/bin"@,
    ]
}

pub fn system_bin_directories() -> (r: Vec<&'static str>)
    ensures
        r@.map_values(|s: &str| s@) == system_bin_dirs_spec(),
{
    let r = vec!["/usr/local/sbin", "/usr/local/bin", "/usr/sbin", "/usr/bin", "/sbin", "/bin"];
    assert(r@.map_values(|s: &str| s@) =~= system_bin_dirs_spec());
    r
}

/// A command line split on white space into the program and its
/// arguments; quoting is not interpreted. An empty line has no program.
pub fn split_command_line(command_line: &str) -> (r: Result<(String, Vec<String>), ProcessError>)
    ensures
        match r {
            Ok((program, args)) => words_of(command_line@).len() > 0 && program@ == words_of(
                command_line@,
            )[0] && strings_of(args@) == words_of(command_line@).drop_first(),
            Err(e) => words_of(command_line@).len() == 0 && e@ == "RUN was given an empty command."@,
        },
{
    let mut parts = words(command_line);
    if parts.len() == 0 {
        return Err(ProcessError(owned("RUN was given an empty command.")));
    }
    let program = parts.remove(0);
    assert(strings_of(parts@) =~= words_of(command_line@).drop_first());
    Ok((program, parts))
}

/// Where a program is looked for first.
#[derive(Debug, Clone, Copy, PartialEq, Eq, Structural)]
pub enum LaunchPlan {
    /// `OUR`: only the shared system directories.
    SharedDirsOnly,
    /// `MY`/`THEIR`: spawned by name, through `$PATH`.
    ByName,
}

pub fn launch_plan(domain: OwnershipKind) -> (r: LaunchPlan)
    ensures
        r == (if domain == OwnershipKind::Our {
            LaunchPlan::SharedDirsOnly
        } else {
            LaunchPlan::ByName
        }),
{
    match domain {
        OwnershipKind::Our => LaunchPlan::SharedDirsOnly,
        _ => LaunchPlan::ByName,
    }
}

/// Whether a program not found through `$PATH` is looked for in the
/// shared directories next: only under `MY`, and only for a bare name.
pub fn falls_back_to_shared_dirs(domain: OwnershipKind, program: &str) -> (r: bool)
    ensures
        r == (domain == OwnershipKind::My && !program@.contains('/')),
{
    if domain != OwnershipKind::My {
        return false;
    }
    let chars = str_chars(program);
    let mut i: usize = 0;
    while i < chars.len()
        invariant
            chars@ == program@,
            0 <= i <= chars@.len(),
            forall|j: int| 0 <= j < i ==> chars@[j] != '/',
        decreases chars@.len() - i,
    {
        if chars[i] == '/' {
            return false;
        }
        i += 1;
    }
    true
}

/// An `OUR` program missing from the shared directories.
pub fn not_in_shared_dirs(program: &str) -> (e: ProcessError)
    ensures
        e@ == "'"@ + program@ + "' was not found in Xact's shared system binary directories."@,
{
    let mut m = String::from_str("'");
    m.append(program);
    m.append("' was not found in Xact's shared system binary directories.");
    ProcessError(m)
}

/// A `MY` program found neither through `$PATH` nor in the shared
/// directories.
pub fn not_found_anywhere(program: &str) -> (e: ProcessError)
    ensures
        e@ == "'"@ + program@ + "' was not found on $PATH or in Xact's shared system binary directories."@,
{
    let mut m = String::from_str("'");
    m.append(program);
    m.append("' was not found on $PATH or in Xact's shared system binary directories.");
    ProcessError(m)
}

/// A program that could not be spawned because it does not exist.
pub fn spawn_not_found(program: &str) -> (e: ProcessError)
    ensures
        e@ == "failed to run '"@ + program@ + "': No such file or directory"@,
{
    let mut m = String::from_str("failed to run '");
    m.append(program);
    m.append("': No such file or directory");
    ProcessError(m)
}

} // verus!
