//! Restarting Codex after a repair: which running processes are Codex, the
//! executable to start again, and what to report. Listing, killing and
//! starting processes is left to the caller.

use vstd::prelude::*;
use crate::import::opt_view;
use crate::text::str_eq;

verus! {

/// Whether a process name is one of Codex's.
pub open spec fn codex_name(name: Seq<char>) -> bool {
    name == "Codex"@ || name == "Codex.exe"@ || name == "codex"@ || name == "codex.exe"@
}

/// See [`codex_name`].
pub fn is_codex_process_name(name: &str) -> (r: bool)
    ensures
        r == codex_name(name@),
{
    str_eq(name, "Codex") || str_eq(name, "Codex.exe") || str_eq(name, "codex") || str_eq(
        name,
        "codex.exe",
    )
}

/// A running process: its name and, where known, its executable.
pub struct RunningProcess {
    pub name: String,
    pub executable: Option<String>,
}

pub struct ProcessData {
    pub name: Seq<char>,
    pub executable: Option<Seq<char>>,
}

impl View for RunningProcess {
    type V = ProcessData;

    open spec fn view(&self) -> ProcessData {
        ProcessData { name: self.name@, executable: opt_view(self.executable) }
    }
}

pub open spec fn processes_view(s: Seq<RunningProcess>) -> Seq<ProcessData> {
    s.map_values(|p: RunningProcess| p@)
}

/// The positions of the Codex processes, in order.
pub open spec fn codex_positions(ps: Seq<ProcessData>) -> Seq<nat>
    decreases ps.len(),
{
    if ps.len() == 0 {
        Seq::empty()
    } else if codex_name(ps.last().name) {
        codex_positions(ps.drop_last()).push((ps.len() - 1) as nat)
    } else {
        codex_positions(ps.drop_last())
    }
}

/// The executable of the first Codex process whose executable is known.
pub open spec fn codex_executable(ps: Seq<ProcessData>) -> Option<Seq<char>>
    decreases ps.len(),
{
    if ps.len() == 0 {
        None
    } else {
        match codex_executable(ps.drop_last()) {
            Some(e) => Some(e),
            None => if codex_name(ps.last().name) {
                ps.last().executable
            } else {
                None
            },
        }
    }
}

/// The processes to stop and the executable to start again.
pub struct RestartTargets {
    pub kill: Vec<usize>,
    pub executable: Option<String>,
}

/// Chooses the processes to stop (see [`codex_positions`]) and the
/// executable to start again (see [`codex_executable`]).
pub fn restart_targets(processes: &Vec<RunningProcess>) -> (r: RestartTargets)
    ensures
        r.kill@.map_values(|i: usize| i as nat) == codex_positions(processes_view(processes@)),
        opt_view(r.executable) == codex_executable(processes_view(processes@)),
{
    let ghost pv = processes_view(processes@);
    let mut kill: Vec<usize> = Vec::new();
    let mut executable: Option<String> = None;
    let mut i: usize = 0;
    assert(pv.take(0) =~= Seq::<ProcessData>::empty());
    while i < processes.len()
        invariant
            i <= processes.len(),
            pv == processes_view(processes@),
            pv.len() == processes.len(),
            kill@.map_values(|i: usize| i as nat) == codex_positions(pv.take(i as int)),
            opt_view(executable) == codex_executable(pv.take(i as int)),
        decreases processes.len() - i,
    {
        assert(pv.take(i + 1).drop_last() =~= pv.take(i as int));
        assert(pv.take(i + 1).last() == processes@[i as int]@);
        if is_codex_process_name(processes[i].name.as_str()) {
            let ghost before = kill@;
            kill.push(i);
            assert(kill@.map_values(|i: usize| i as nat) =~= before.map_values(|i: usize| i as nat).push(
                i as nat,
            ));
            if executable.is_none() {
                executable = match &processes[i].executable {
                    Some(e) => Some(e.clone()),
                    None => None,
                };
            }
        }
        i = i + 1;
    }
    assert(pv.take(processes.len() as int) =~= pv);
    RestartTargets { kill, executable }
}

/// How a restart went.
pub struct RestartOutcome {
    pub killed_processes: usize,
    pub launched: bool,
    pub launch_method: Option<String>,
    pub executable: Option<String>,
    pub message: String,
}

/// The report of a restart that stopped `killed_processes` processes:
/// started from the executable of the stopped Codex where that worked, else
/// with the platform's default launcher where one worked (`platform_method`
/// names it), else not started.
pub fn restart_outcome(
    killed_processes: usize,
    executable: Option<String>,
    executable_launched: bool,
    platform_method: Option<String>,
) -> (r: RestartOutcome)
    requires
        executable_launched ==> executable is Some,
    ensures
        r.killed_processes == killed_processes,
        r.executable == executable,
        r.launched == (executable_launched || platform_method is Some),
        executable_launched ==> {
            &&& opt_view(r.launch_method) == Some("running_process_executable"@)
            &&& r.message@ == "Restarted Codex from the previously running executable."@
        },
        !executable_launched && platform_method is Some ==> {
            &&& opt_view(r.launch_method) == opt_view(platform_method)
            &&& r.message@ == "Started Codex with the platform default launcher."@
        },
        !executable_launched && platform_method is None ==> {
            &&& r.launch_method is None
            &&& r.message@
                == "Could not find a Codex launcher. The repair is complete; please reopen Codex manually."@
        },
{
    if executable_launched {
        RestartOutcome {
            killed_processes,
            launched: true,
            launch_method: Some(String::from_str("running_process_executable")),
            executable,
            message: String::from_str("Restarted Codex from the previously running executable."),
        }
    } else {
        match platform_method {
            Some(m) => RestartOutcome {
                killed_processes,
                launched: true,
                launch_method: Some(m),
                executable,
                message: String::from_str("Started Codex with the platform default launcher."),
            },
            None => RestartOutcome {
                killed_processes,
                launched: false,
                launch_method: None,
                executable,
                message: String::from_str(
                    "Could not find a Codex launcher. The repair is complete; please reopen Codex manually.",
                ),
            },
        }
    }
}

} // verus!
