//! Job control for an interactive shell.
//!
//! The worker owns all job-control state: the job table, the process-group
//! table, the process table, the last exit status, and the foreground
//! pointer. It decides how every command line and every child-state change
//! affects that state and what must be reported back; performing the
//! process, terminal, and directory operations themselves is left to the
//! surrounding program, which feeds the results back in as plain values.

pub mod jobtable;

use vstd::prelude::*;
use std::collections::BTreeMap;
use crate::shell::jobtable::{JobEntry, JobTable};

verus! {

/// Reply sent back to the read loop: either resume reading with the given
/// status, or terminate the shell with the given exit code.
#[derive(Clone, Copy, Debug, PartialEq, Eq, Structural)]
pub enum ShellMsg {
    Continue(i32),
    Quit(i32),
}

/// Run state of one child process.
#[derive(Clone, Copy, Debug, PartialEq, Eq, Structural)]
pub enum ProcState {
    Run,
    Stop,
}

/// What the worker tracks of one process: its run state and the process
/// group it belongs to.
#[derive(Clone, Copy, Debug, PartialEq, Eq, Structural)]
pub struct ProcInfo {
    pub state: ProcState,
    pub pgid: usize,
}

/// What the worker tracks of one process group: the job it belongs to and
/// its member processes.
pub struct GroupEntry {
    pub job_id: usize,
    pub pids: Vec<usize>,
}

/// A child-state change reported by the operating system's wait facility.
#[derive(Clone, Copy, Debug, PartialEq, Eq, Structural)]
pub enum WaitEvent {
    /// The process exited with the given status code.
    Exited(usize, i32),
    /// The process was terminated by the given signal number.
    Signaled(usize, i32),
    /// The process was stopped.
    Stopped(usize),
    /// The process resumed running.
    Continued(usize),
}

/// A job-state report for the user: the job finished, or it stopped.
pub struct Announce {
    pub job_id: usize,
    pub finished: bool,
    pub cmd: String,
}

/// The worker's job-control state.
pub struct Worker {
    /// Exit status of the most recently finished or signaled child.
    pub exit_val: i32,
    /// Foreground process group; `None` means the shell itself.
    pub fg: Option<usize>,
    /// The shell's own process group, captured at startup.
    pub shell_pgid: usize,
    /// Job id to job record.
    pub jobs: JobTable,
    /// Process-group id to job id and members.
    pub pgid_to_pids: BTreeMap<usize, GroupEntry>,
    /// Process id to its run state and group.
    pub pid_to_info: BTreeMap<usize, ProcInfo>,
}

impl Worker {
    /// The job record named by a group points back at that group.
    pub open spec fn job_ok(&self, j: usize) -> bool {
        &&& self.pgid_to_pids@.contains_key(self.jobs@[j].pgid)
        &&& self.pgid_to_pids@[self.jobs@[j].pgid].job_id == j
    }

    /// A listed member process is tracked and points back at its group.
    pub open spec fn member_ok(&self, pg: usize, p: usize) -> bool {
        &&& self.pid_to_info@.contains_key(p)
        &&& self.pid_to_info@[p].pgid == pg
    }

    /// A group's job exists, points back at it, and its member list is
    /// duplicate-free with every member tracked.
    pub open spec fn group_ok(&self, pg: usize) -> bool {
        &&& self.jobs@.contains_key(self.pgid_to_pids@[pg].job_id)
        &&& self.jobs@[self.pgid_to_pids@[pg].job_id].pgid == pg
        &&& forall|x: int|
            0 <= x < self.pgid_to_pids@[pg].pids@.len() ==> self.member_ok(
                pg,
                #[trigger] self.pgid_to_pids@[pg].pids@[x],
            )
        &&& forall|x: int, y: int|
            0 <= x < y < self.pgid_to_pids@[pg].pids@.len()
                ==> (#[trigger] self.pgid_to_pids@[pg].pids@[x]) != (
            #[trigger] self.pgid_to_pids@[pg].pids@[y])
    }

    /// A tracked process's group exists and lists it as a member.
    pub open spec fn pid_ok(&self, p: usize) -> bool {
        &&& self.pgid_to_pids@.contains_key(self.pid_to_info@[p].pgid)
        &&& self.pgid_to_pids@[self.pid_to_info@[p].pgid].pids@.contains(p)
    }

    /// The three tables are mutually consistent.
    pub open spec fn tables_ok(&self) -> bool {
        &&& self.jobs.wf()
        &&& forall|j: usize| #[trigger] self.jobs@.contains_key(j) ==> self.job_ok(j)
        &&& forall|pg: usize| #[trigger] self.pgid_to_pids@.contains_key(pg) ==> self.group_ok(pg)
        &&& forall|p: usize| #[trigger] self.pid_to_info@.contains_key(p) ==> self.pid_ok(p)
    }

    /// Every live group still has members: a job leaves the table the
    /// moment its group empties.
    pub open spec fn groups_nonempty(&self) -> bool {
        forall|pg: usize| #[trigger]
            self.pgid_to_pids@.contains_key(pg) ==> self.pgid_to_pids@[pg].pids@.len() > 0
    }

    /// The foreground pointer, if set, names a live group.
    pub open spec fn fg_ok(&self) -> bool {
        match self.fg {
            Some(pg) => self.pgid_to_pids@.contains_key(pg),
            None => true,
        }
    }

    /// The worker invariant: the three tables agree with one another,
    /// every live group still has members, and the foreground pointer
    /// names a live group. Every step the worker takes — a command, a
    /// registration, a child-state change — keeps it, as the `ensures`
    /// clauses below state.
    pub open spec fn wf(&self) -> bool {
        self.tables_ok() && self.groups_nonempty() && self.fg_ok()
    }

    /// Every member of the group is stopped.
    pub open spec fn group_stopped(&self, pg: usize) -> bool {
        forall|x: int|
            0 <= x < self.pgid_to_pids@[pg].pids@.len() ==> self.pid_to_info@[(
            #[trigger] self.pgid_to_pids@[pg].pids@[x])].state is Stop
    }

    /// A fresh worker: no jobs, no children, the shell in the foreground.
    pub fn new(shell_pgid: usize) -> (w: Worker)
        ensures
            w.wf(),
            w.exit_val == 0,
            w.fg is None,
            w.shell_pgid == shell_pgid,
            w.jobs@ == Map::<usize, JobEntry>::empty(),
            w.pgid_to_pids@ == Map::<usize, GroupEntry>::empty(),
            w.pid_to_info@ == Map::<usize, ProcInfo>::empty(),
    {
        Worker {
            exit_val: 0,
            fg: None,
            shell_pgid,
            jobs: JobTable::new(),
            pgid_to_pids: BTreeMap::new(),
            pid_to_info: BTreeMap::new(),
        }
    }

    /// Sets the run state of a process and returns the previous state;
    /// an untracked process is left alone and reported as `None`.
    pub fn set_pid_state(&mut self, pid: usize, state: ProcState) -> (r: Option<ProcState>)
        requires
            old(self).wf(),
        ensures
            final(self).wf(),
            old(self).pid_to_info@.contains_key(pid) ==> r == Some(
                old(self).pid_to_info@[pid].state,
            ) && final(self).pid_to_info@ == old(self).pid_to_info@.insert(
                pid,
                (ProcInfo { state, pgid: old(self).pid_to_info@[pid].pgid }),
            ),
            !old(self).pid_to_info@.contains_key(pid) ==> r is None && final(self).pid_to_info@
                == old(self).pid_to_info@,
            final(self).jobs@ == old(self).jobs@,
            final(self).jobs.entries_seq() == old(self).jobs.entries_seq(),
            final(self).pgid_to_pids@ == old(self).pgid_to_pids@,
            final(self).fg == old(self).fg,
            final(self).exit_val == old(self).exit_val,
            final(self).shell_pgid == old(self).shell_pgid,
    {
        let info = match self.pid_to_info.get(&pid) {
            Some(info) => *info,
            None => {
                return None;
            },
        };
        self.pid_to_info.insert(pid, ProcInfo { state, pgid: info.pgid });
        proof {
            lemma_wf_after_state_change(*old(self), *self);
        }
        Some(info.state)
    }

    /// Drops a process from its group's member list and from the process
    /// table, returning the job and group it belonged to; an untracked
    /// process is left alone. The group itself stays, possibly empty,
    /// until `manage_job` decides its fate.
    pub fn remove_pid(&mut self, pid: usize) -> (r: Option<(usize, usize)>)
        requires
            old(self).wf(),
        ensures
            !old(self).pid_to_info@.contains_key(pid) ==> r is None && *final(self) == *old(self),
            old(self).pid_to_info@.contains_key(pid) ==> {
                let pg = old(self).pid_to_info@[pid].pgid;
                &&& r == Some((old(self).pgid_to_pids@[pg].job_id, pg))
                &&& final(self).pid_to_info@ == old(self).pid_to_info@.remove(pid)
                &&& final(self).pgid_to_pids@.dom() == old(self).pgid_to_pids@.dom()
                &&& final(self).pgid_to_pids@[pg].job_id == old(self).pgid_to_pids@[pg].job_id
                &&& final(self).pgid_to_pids@[pg].pids@.len() == old(
                    self,
                ).pgid_to_pids@[pg].pids@.len() - 1
                &&& forall|q: usize|
                    final(self).pgid_to_pids@[pg].pids@.contains(q) <==> (old(
                        self,
                    ).pgid_to_pids@[pg].pids@.contains(q) && q != pid)
                &&& forall|x: int|
                    0 <= x < final(self).pgid_to_pids@[pg].pids@.len() ==> old(
                        self,
                    ).pgid_to_pids@[pg].pids@.contains(
                        #[trigger] final(self).pgid_to_pids@[pg].pids@[x],
                    )
                &&& forall|pg2: usize|
                    pg2 != pg ==> (#[trigger] final(self).pgid_to_pids@.contains_key(pg2) == old(
                        self,
                    ).pgid_to_pids@.contains_key(pg2)) && (final(self).pgid_to_pids@.contains_key(
                        pg2,
                    ) ==> final(self).pgid_to_pids@[pg2] == old(self).pgid_to_pids@[pg2])
                &&& final(self).tables_ok()
                &&& final(self).fg_ok()
                &&& forall|pg2: usize|
                    pg2 != pg && #[trigger] final(self).pgid_to_pids@.contains_key(pg2)
                        ==> final(self).pgid_to_pids@[pg2].pids@.len() > 0
            },
            final(self).jobs@ == old(self).jobs@,
            final(self).jobs.entries_seq() == old(self).jobs.entries_seq(),
            final(self).fg == old(self).fg,
            final(self).exit_val == old(self).exit_val,
            final(self).shell_pgid == old(self).shell_pgid,
    {
        let info = match self.pid_to_info.get(&pid) {
            Some(info) => *info,
            None => {
                return None;
            },
        };
        let pg = info.pgid;
        let g = match self.pgid_to_pids.remove(&pg) {
            Some(g) => g,
            None => {
                proof {
                    assert(old(self).pid_ok(pid));
                    assert(false);
                }
                return None;
            },
        };
        let GroupEntry { job_id, pids } = g;
        let mut pids = pids;
        let ghost oldpids = pids@;
        proof {
            assert(old(self).pid_ok(pid));
            assert(oldpids.contains(pid));
        }
        let mut i: usize = 0;
        let n = pids.len();
        while i < n && pids[i] != pid
            invariant
                n == pids@.len(),
                i <= n,
                pids@ == oldpids,
                oldpids.contains(pid),
                forall|j: int| 0 <= j < i ==> pids@[j] != pid,
            decreases n - i,
        {
            i = i + 1;
        }
        proof {
            if i == n {
                let w = choose|w: int| 0 <= w < oldpids.len() && oldpids[w] == pid;
                assert(oldpids[w] != pid);
                assert(false);
            }
            assert(oldpids[i as int] == pid);
        }
        pids.remove(i);
        self.pid_to_info.remove(&pid);
        self.pgid_to_pids.insert(pg, GroupEntry { job_id, pids });
        proof {
            lemma_wf_after_remove_pid(*old(self), *self, pid, pg, i as int);
        }
        Some((job_id, pg))
    }

    /// Drops a job and its (already empty) process group.
    pub fn remove_job(&mut self, job_id: usize)
        requires
            old(self).tables_ok(),
            old(self).jobs@.contains_key(job_id) ==> old(self).pgid_to_pids@[old(
                self,
            ).jobs@[job_id].pgid].pids@.len() == 0,
        ensures
            final(self).tables_ok(),
            old(self).jobs@.contains_key(job_id) ==> final(self).jobs@ == old(self).jobs@.remove(
                job_id,
            ) && final(self).pgid_to_pids@ == old(self).pgid_to_pids@.remove(
                old(self).jobs@[job_id].pgid,
            ),
            !old(self).jobs@.contains_key(job_id) ==> final(self).jobs@ == old(self).jobs@ && final(self).pgid_to_pids@ == old(self).pgid_to_pids@,
            final(self).pid_to_info@ == old(self).pid_to_info@,
            final(self).fg == old(self).fg,
            final(self).exit_val == old(self).exit_val,
            final(self).shell_pgid == old(self).shell_pgid,
    {
        if let Some(e) = self.jobs.remove(job_id) {
            proof {
                assert(old(self).jobs@.contains_key(job_id));
                assert(old(self).job_ok(job_id));
            }
            let removed = self.pgid_to_pids.remove(&e.pgid);
            proof {
                assert(removed is Some);
                assert(removed.unwrap().pids@.len() == 0);
                lemma_wf_after_remove_job(*old(self), *self, job_id, e.pgid);
            }
        } else {
            proof {
                assert(final(self).jobs@ =~= old(self).jobs@);
            }
        }
    }

    /// True when the group has no members left.
    pub fn is_group_empty(&self, pgid: usize) -> (r: bool)
        requires
            self.pgid_to_pids@.contains_key(pgid),
        ensures
            r == (self.pgid_to_pids@[pgid].pids@.len() == 0),
    {
        match self.pgid_to_pids.get(&pgid) {
            Some(g) => g.pids.len() == 0,
            None => {
                proof {
                    assert(false);
                }
                true
            },
        }
    }

    /// Whether every member of the group is stopped; `None` when the group
    /// is not tracked.
    pub fn is_group_stop(&self, pgid: usize) -> (r: Option<bool>)
        requires
            self.tables_ok(),
        ensures
            r is Some <==> self.pgid_to_pids@.contains_key(pgid),
            r is Some ==> r.unwrap() == self.group_stopped(pgid),
    {
        let g = match self.pgid_to_pids.get(&pgid) {
            Some(g) => g,
            None => {
                return None;
            },
        };
        let n = g.pids.len();
        let mut i: usize = 0;
        while i < n
            invariant
                self.tables_ok(),
                self.pgid_to_pids@.contains_key(pgid),
                *g == self.pgid_to_pids@[pgid],
                n == g.pids@.len(),
                i <= n,
                forall|x: int|
                    0 <= x < i ==> self.pid_to_info@[(
                    #[trigger] self.pgid_to_pids@[pgid].pids@[x])].state is Stop,
            decreases n - i,
        {
            let pid = g.pids[i];
            proof {
                assert(self.group_ok(pgid));
                assert(self.member_ok(pgid, pid));
            }
            let info = match self.pid_to_info.get(&pid) {
                Some(info) => info,
                None => {
                    proof {
                        assert(false);
                    }
                    return None;
                },
            };
            if info.state == ProcState::Run {
                return Some(false);
            }
            i = i + 1;
        }
        Some(true)
    }

    /// The smallest job id not currently in use.
    pub fn get_new_job_id(&self) -> (r: usize)
        requires
            self.jobs.wf(),
        ensures
            !self.jobs@.contains_key(r),
            forall|j: usize| j < r ==> self.jobs@.contains_key(j),
    {
        self.jobs.smallest_free()
    }

    /// Registers a freshly spawned pipeline: a new job record, its process
    /// group, and one running process per member.
    pub fn insert_job(&mut self, job_id: usize, pgid: usize, pids: Vec<usize>, line: &String)
        requires
            old(self).wf(),
            !old(self).jobs@.contains_key(job_id),
            !old(self).pgid_to_pids@.contains_key(pgid),
            pids@.len() > 0,
            forall|x: int, y: int| 0 <= x < y < pids@.len() ==> pids@[x] != pids@[y],
            forall|x: int|
                0 <= x < pids@.len() ==> !old(self).pid_to_info@.contains_key(#[trigger] pids@[x]),
        ensures
            final(self).wf(),
            final(self).jobs@ == old(self).jobs@.insert(job_id, (JobEntry { pgid, cmd: *line })),
            final(self).pgid_to_pids@ == old(self).pgid_to_pids@.insert(
                pgid,
                (GroupEntry { job_id, pids }),
            ),
            forall|x: int|
                0 <= x < pids@.len() ==> final(self).pid_to_info@.contains_key(#[trigger] pids@[x])
                    && final(self).pid_to_info@[pids@[x]] == (ProcInfo {
                    state: ProcState::Run,
                    pgid,
                }),
            forall|q: usize|
                !pids@.contains(q) ==> (#[trigger] final(self).pid_to_info@.contains_key(q) == old(
                    self,
                ).pid_to_info@.contains_key(q)) && (final(self).pid_to_info@.contains_key(q)
                    ==> final(self).pid_to_info@[q] == old(self).pid_to_info@[q]),
            final(self).fg == old(self).fg,
            final(self).exit_val == old(self).exit_val,
            final(self).shell_pgid == old(self).shell_pgid,
    {
        self.jobs.insert(job_id, JobEntry { pgid, cmd: line.clone() });
        let n = pids.len();
        let mut i: usize = 0;
        while i < n
            invariant
                n == pids@.len(),
                i <= n,
                forall|x: int, y: int| 0 <= x < y < pids@.len() ==> pids@[x] != pids@[y],
                forall|x: int|
                    0 <= x < pids@.len() ==> !old(self).pid_to_info@.contains_key(
                        #[trigger] pids@[x],
                    ),
                forall|x: int|
                    0 <= x < i ==> self.pid_to_info@.contains_key(#[trigger] pids@[x])
                        && self.pid_to_info@[pids@[x]] == (ProcInfo {
                        state: ProcState::Run,
                        pgid,
                    }),
                forall|q: usize|
                    !pids@.contains(q) ==> (#[trigger] self.pid_to_info@.contains_key(q) == old(
                        self,
                    ).pid_to_info@.contains_key(q)) && (self.pid_to_info@.contains_key(q)
                        ==> self.pid_to_info@[q] == old(self).pid_to_info@[q]),
                forall|q: usize|
                    #[trigger] self.pid_to_info@.contains_key(q) ==> old(
                        self,
                    ).pid_to_info@.contains_key(q) || pids@.contains(q),
                self.jobs@ == old(self).jobs@.insert(job_id, (JobEntry { pgid, cmd: *line })),
                self.jobs.wf(),
                self.pgid_to_pids@ == old(self).pgid_to_pids@,
                self.fg == old(self).fg,
                self.exit_val == old(self).exit_val,
                self.shell_pgid == old(self).shell_pgid,
            decreases n - i,
        {
            let pid = pids[i];
            self.pid_to_info.insert(pid, ProcInfo { state: ProcState::Run, pgid });
            i = i + 1;
        }
        let ghost pids_snap = pids@;
        self.pgid_to_pids.insert(pgid, GroupEntry { job_id, pids });
        proof {
            lemma_wf_after_insert_job(*old(self), *self, job_id, pgid, pids_snap);
        }
    }

    /// Makes the given live group the foreground group.
    pub fn set_foreground(&mut self, pgid: usize)
        requires
            old(self).wf(),
            old(self).pgid_to_pids@.contains_key(pgid),
        ensures
            final(self).wf(),
            final(self).fg == Some(pgid),
            final(self).jobs@ == old(self).jobs@,
            final(self).jobs.entries_seq() == old(self).jobs.entries_seq(),
            final(self).pgid_to_pids@ == old(self).pgid_to_pids@,
            final(self).pid_to_info@ == old(self).pid_to_info@,
            final(self).exit_val == old(self).exit_val,
            final(self).shell_pgid == old(self).shell_pgid,
    {
        self.fg = Some(pgid);
    }

    /// Returns the terminal to the shell itself and produces the reply
    /// that lets the read loop resume.
    pub fn set_shell_fg(&mut self) -> (r: ShellMsg)
        ensures
            final(self).fg is None,
            r == ShellMsg::Continue(old(self).exit_val),
            final(self).jobs@ == old(self).jobs@,
            final(self).jobs.entries_seq() == old(self).jobs.entries_seq(),
            final(self).pgid_to_pids@ == old(self).pgid_to_pids@,
            final(self).pid_to_info@ == old(self).pid_to_info@,
            final(self).exit_val == old(self).exit_val,
            final(self).shell_pgid == old(self).shell_pgid,
            old(self).tables_ok() ==> final(self).tables_ok(),
            old(self).groups_nonempty() ==> final(self).groups_nonempty(),
    {
        self.fg = None;
        ShellMsg::Continue(self.exit_val)
    }

    /// Foreground reconciliation after the given job's group changed.
    ///
    /// A foreground group that emptied ends its job and hands the terminal
    /// and a reply back to the shell; one that is entirely stopped hands
    /// them back but keeps the job; a background group that emptied ends
    /// its job silently.
    pub fn manage_job(&mut self, job_id: usize, pgid: usize) -> (r: (
        Option<Announce>,
        Option<ShellMsg>,
    ))
        requires
            old(self).tables_ok(),
            old(self).fg_ok(),
            old(self).pgid_to_pids@.contains_key(pgid),
            old(self).pgid_to_pids@[pgid].job_id == job_id,
            forall|pg2: usize|
                pg2 != pgid && #[trigger] old(self).pgid_to_pids@.contains_key(pg2) ==> old(
                    self,
                ).pgid_to_pids@[pg2].pids@.len() > 0,
        ensures
            final(self).wf(),
            final(self).exit_val == old(self).exit_val,
            final(self).shell_pgid == old(self).shell_pgid,
            final(self).pid_to_info@ == old(self).pid_to_info@,
            ({
                let empty = old(self).pgid_to_pids@[pgid].pids@.len() == 0;
                let stopped = old(self).group_stopped(pgid);
                let isfg = old(self).fg == Some(pgid);
                if isfg && empty {
                    &&& final(self).jobs@ == old(self).jobs@.remove(job_id)
                    &&& final(self).pgid_to_pids@ == old(self).pgid_to_pids@.remove(pgid)
                    &&& final(self).fg is None
                    &&& r.1 == Some(ShellMsg::Continue(old(self).exit_val))
                    &&& r.0 matches Some(a) && a.job_id == job_id && a.finished && a.cmd == old(
                        self,
                    ).jobs@[job_id].cmd
                } else if isfg && stopped {
                    &&& final(self).jobs@ == old(self).jobs@
                    &&& final(self).pgid_to_pids@ == old(self).pgid_to_pids@
                    &&& final(self).fg is None
                    &&& r.1 == Some(ShellMsg::Continue(old(self).exit_val))
                    &&& r.0 matches Some(a) && a.job_id == job_id && !a.finished && a.cmd == old(
                        self,
                    ).jobs@[job_id].cmd
                } else if !isfg && empty {
                    &&& final(self).jobs@ == old(self).jobs@.remove(job_id)
                    &&& final(self).pgid_to_pids@ == old(self).pgid_to_pids@.remove(pgid)
                    &&& final(self).fg == old(self).fg
                    &&& r.1 is None
                    &&& r.0 matches Some(a) && a.job_id == job_id && a.finished && a.cmd == old(
                        self,
                    ).jobs@[job_id].cmd
                } else {
                    &&& final(self).jobs@ == old(self).jobs@
                    &&& final(self).pgid_to_pids@ == old(self).pgid_to_pids@
                    &&& final(self).fg == old(self).fg
                    &&& r.1 is None
                    &&& r.0 is None
                }
            }),
    {
        proof {
            assert(old(self).group_ok(pgid));
        }
        let is_fg = match self.fg {
            Some(x) => pgid == x,
            None => false,
        };
        let cmd = match self.jobs.get(job_id) {
            Some(e) => e.cmd.clone(),
            None => {
                proof {
                    assert(false);
                }
                String::new()
            },
        };
        if is_fg {
            if self.is_group_empty(pgid) {
                self.remove_job(job_id);
                let msg = self.set_shell_fg();
                (Some(Announce { job_id, finished: true, cmd }), Some(msg))
            } else if self.is_group_stop(pgid).unwrap() {
                let msg = self.set_shell_fg();
                (Some(Announce { job_id, finished: false, cmd }), Some(msg))
            } else {
                (None, None)
            }
        } else {
            if self.is_group_empty(pgid) {
                self.remove_job(job_id);
                (Some(Announce { job_id, finished: true, cmd }), None)
            } else {
                (None, None)
            }
        }
    }

    /// A process resumed: mark it running again.
    pub fn process_continue(&mut self, pid: usize)
        requires
            old(self).wf(),
        ensures
            final(self).wf(),
            final(self).jobs@ == old(self).jobs@,
            final(self).pgid_to_pids@ == old(self).pgid_to_pids@,
            final(self).fg == old(self).fg,
            final(self).exit_val == old(self).exit_val,
            final(self).shell_pgid == old(self).shell_pgid,
            old(self).pid_to_info@.contains_key(pid) ==> final(self).pid_to_info@ == old(
                self,
            ).pid_to_info@.insert(
                pid,
                (ProcInfo { state: ProcState::Run, pgid: old(self).pid_to_info@[pid].pgid }),
            ),
            !old(self).pid_to_info@.contains_key(pid) ==> final(self).pid_to_info@ == old(
                self,
            ).pid_to_info@,
    {
        let _ = self.set_pid_state(pid, ProcState::Run);
    }

    /// A process stopped: mark it and reconcile the foreground.
    pub fn process_stop(&mut self, pid: usize) -> (r: (Option<Announce>, Option<ShellMsg>))
        requires
            old(self).wf(),
            old(self).pid_to_info@.contains_key(pid),
        ensures
            final(self).wf(),
            final(self).exit_val == old(self).exit_val,
            final(self).shell_pgid == old(self).shell_pgid,
            final(self).jobs@ == old(self).jobs@,
            final(self).pgid_to_pids@ == old(self).pgid_to_pids@,
            final(self).pid_to_info@ == old(self).pid_to_info@.insert(
                pid,
                (ProcInfo { state: ProcState::Stop, pgid: old(self).pid_to_info@[pid].pgid }),
            ),
            ({
                let pg = old(self).pid_to_info@[pid].pgid;
                let jid = old(self).pgid_to_pids@[pg].job_id;
                let fg_stopped = old(self).fg == Some(pg) && final(self).group_stopped(pg);
                &&& (r.1 is Some <==> fg_stopped)
                &&& (r.0 is Some <==> fg_stopped)
                &&& (r.0 matches Some(a) ==> a.job_id == jid && !a.finished && a.cmd == old(
                    self,
                ).jobs@[jid].cmd)
                &&& (r.1 is Some ==> r.1 == Some(ShellMsg::Continue(old(self).exit_val)) && final(self).fg is None)
                &&& (r.1 is None ==> final(self).fg == old(self).fg)
            }),
    {
        self.set_pid_state(pid, ProcState::Stop);
        let info = match self.pid_to_info.get(&pid) {
            Some(info) => *info,
            None => {
                proof {
                    assert(false);
                }
                return (None, None);
            },
        };
        let pgid = info.pgid;
        proof {
            assert(self.pid_ok(pid));
        }
        let job_id = match self.pgid_to_pids.get(&pgid) {
            Some(g) => g.job_id,
            None => {
                proof {
                    assert(false);
                }
                return (None, None);
            },
        };
        self.manage_job(job_id, pgid)
    }

    /// A process exited or was killed: drop it and reconcile the
    /// foreground. The job is removed exactly when this was its group's
    /// last member.
    pub fn process_term(&mut self, pid: usize) -> (r: (Option<Announce>, Option<ShellMsg>))
        requires
            old(self).wf(),
        ensures
            final(self).wf(),
            final(self).exit_val == old(self).exit_val,
            final(self).shell_pgid == old(self).shell_pgid,
            r.1 is Some ==> final(self).fg is None && r.1 == Some(
                ShellMsg::Continue(old(self).exit_val),
            ),
            r.1 is None ==> final(self).fg == old(self).fg,
            !old(self).pid_to_info@.contains_key(pid) ==> *final(self) == *old(self) && r.0 is None
                && r.1 is None,
            old(self).pid_to_info@.contains_key(pid) ==> {
                let pg = old(self).pid_to_info@[pid].pgid;
                let jid = old(self).pgid_to_pids@[pg].job_id;
                let emptied = old(self).pgid_to_pids@[pg].pids@.len() == 1;
                &&& final(self).pid_to_info@ == old(self).pid_to_info@.remove(pid)
                &&& (emptied ==> final(self).jobs@ == old(self).jobs@.remove(jid) && final(self).pgid_to_pids@ == old(self).pgid_to_pids@.remove(pg))
                &&& (!emptied ==> {
                    &&& final(self).jobs@ == old(self).jobs@
                    &&& final(self).pgid_to_pids@.dom() == old(self).pgid_to_pids@.dom()
                    &&& final(self).pgid_to_pids@[pg].job_id == jid
                    &&& final(self).pgid_to_pids@[pg].pids@.len() == old(self).pgid_to_pids@[pg].pids@.len() - 1
                    &&& (forall|q: usize|
                        final(self).pgid_to_pids@[pg].pids@.contains(q) <==> (old(self).pgid_to_pids@[pg].pids@.contains(q) && q != pid))
                    &&& (forall|pg2: usize|
                        pg2 != pg && #[trigger] final(self).pgid_to_pids@.contains_key(pg2)
                            ==> final(self).pgid_to_pids@[pg2] == old(self).pgid_to_pids@[pg2])
                })
                &&& ({
                    let fg_stopped = !emptied && old(self).fg == Some(pg) && final(self).group_stopped(pg);
                    &&& (r.1 is Some <==> (old(self).fg == Some(pg) && (emptied || fg_stopped)))
                    &&& (r.0 is Some <==> (emptied || fg_stopped))
                    &&& (r.0 matches Some(a) ==> a.job_id == jid && a.cmd == old(self).jobs@[jid].cmd && (a.finished <==> emptied))
                })
            },
    {
        match self.remove_pid(pid) {
            Some((job_id, pgid)) => self.manage_job(job_id, pgid),
            None => (None, None),
        }
    }

    /// Reacts to one child-state change: records exit statuses, updates
    /// run states, and reconciles foreground ownership. The reply, when
    /// present, is what unblocks the read loop; it always hands the
    /// terminal back to the shell first.
    pub fn on_wait_event(&mut self, ev: WaitEvent) -> (r: (Option<Announce>, Option<ShellMsg>))
        requires
            old(self).wf(),
            ev matches WaitEvent::Stopped(pid) ==> old(self).pid_to_info@.contains_key(pid),
            ev matches WaitEvent::Signaled(pid, sig) ==> sig + 128 <= i32::MAX,
        ensures
            final(self).wf(),
            final(self).shell_pgid == old(self).shell_pgid,
            match ev {
                WaitEvent::Exited(_, status) => final(self).exit_val == status,
                WaitEvent::Signaled(_, sig) => final(self).exit_val == sig + 128,
                _ => final(self).exit_val == old(self).exit_val,
            },
            r.1 is Some ==> final(self).fg is None && r.1 == Some(
                ShellMsg::Continue(final(self).exit_val),
            ),
            r.1 is None ==> final(self).fg == old(self).fg,
            ev matches WaitEvent::Continued(pid) ==> {
                &&& r.0 is None && r.1 is None
                &&& final(self).jobs@ == old(self).jobs@
                &&& final(self).pgid_to_pids@ == old(self).pgid_to_pids@
                &&& (old(self).pid_to_info@.contains_key(pid) ==> final(self).pid_to_info@ == old(self).pid_to_info@.insert(
                    pid,
                    (ProcInfo { state: ProcState::Run, pgid: old(self).pid_to_info@[pid].pgid }),
                ))
                &&& (!old(self).pid_to_info@.contains_key(pid) ==> final(self).pid_to_info@ == old(self).pid_to_info@)
            },
            ev matches WaitEvent::Stopped(pid) ==> {
                let pg = old(self).pid_to_info@[pid].pgid;
                let jid = old(self).pgid_to_pids@[pg].job_id;
                let fg_stopped = old(self).fg == Some(pg) && final(self).group_stopped(pg);
                &&& final(self).jobs@ == old(self).jobs@
                &&& final(self).pgid_to_pids@ == old(self).pgid_to_pids@
                &&& final(self).pid_to_info@ == old(self).pid_to_info@.insert(
                    pid,
                    (ProcInfo { state: ProcState::Stop, pgid: pg }),
                )
                &&& (r.1 is Some <==> fg_stopped)
                &&& (r.0 is Some <==> fg_stopped)
                &&& (r.0 matches Some(a) ==> a.job_id == jid && !a.finished && a.cmd == old(self).jobs@[jid].cmd)
            },
            ({
                let done = match ev {
                    WaitEvent::Exited(pid, _) => Some(pid),
                    WaitEvent::Signaled(pid, _) => Some(pid),
                    _ => None,
                };
                &&& (done is Some && !old(self).pid_to_info@.contains_key(done->0) ==> r.0 is None
                    && r.1 is None && final(self).jobs@ == old(self).jobs@ && final(self).pgid_to_pids@ == old(self).pgid_to_pids@ && final(self).pid_to_info@ == old(self).pid_to_info@)
                &&& (done is Some && old(self).pid_to_info@.contains_key(done->0) ==> {
                    let pid = done->0;
                    let pg = old(self).pid_to_info@[pid].pgid;
                    let jid = old(self).pgid_to_pids@[pg].job_id;
                    let emptied = old(self).pgid_to_pids@[pg].pids@.len() == 1;
                    let fg_stopped = !emptied && old(self).fg == Some(pg) && final(self).group_stopped(pg);
                    &&& final(self).pid_to_info@ == old(self).pid_to_info@.remove(pid)
                    &&& (emptied ==> final(self).jobs@ == old(self).jobs@.remove(jid) && final(self).pgid_to_pids@ == old(self).pgid_to_pids@.remove(pg))
                    &&& (!emptied ==> final(self).jobs@ == old(self).jobs@ && final(self).pgid_to_pids@.dom() == old(self).pgid_to_pids@.dom())
                    &&& (r.1 is Some <==> (old(self).fg == Some(pg) && (emptied || fg_stopped)))
                    &&& (r.0 is Some <==> (emptied || fg_stopped))
                    &&& (r.0 matches Some(a) ==> a.job_id == jid && a.cmd == old(self).jobs@[jid].cmd && (a.finished <==> emptied))
                })
            }),
    {
        match ev {
            WaitEvent::Exited(pid, status) => {
                self.exit_val = status;
                proof {
                    lemma_wf_after_state_change(*old(self), *self);
                }
                self.process_term(pid)
            },
            WaitEvent::Signaled(pid, sig) => {
                self.exit_val = sig + 128;
                proof {
                    lemma_wf_after_state_change(*old(self), *self);
                }
                self.process_term(pid)
            },
            WaitEvent::Stopped(pid) => self.process_stop(pid),
            WaitEvent::Continued(pid) => {
                self.process_continue(pid);
                (None, None)
            },
        }
    }
}

/// The pieces of `s` split at every occurrence of `sep`: separators are
/// dropped and empty pieces kept, so there is always at least one piece.
pub open spec fn split_on(s: Seq<char>, sep: char) -> Seq<Seq<char>>
    decreases s.len(),
{
    if s.len() == 0 {
        seq![Seq::<char>::empty()]
    } else if s.last() == sep {
        split_on(s.drop_last(), sep).push(Seq::empty())
    } else {
        let r = split_on(s.drop_last(), sep);
        r.update(r.len() - 1, r.last().push(s.last()))
    }
}

pub proof fn lemma_split_on_nonempty(s: Seq<char>, sep: char)
    ensures
        split_on(s, sep).len() >= 1,
    decreases s.len(),
{
    if s.len() > 0 {
        lemma_split_on_nonempty(s.drop_last(), sep);
    }
}

/// The whitespace-separated tokens of one pipeline stage.
pub open spec fn tokens_of(s: Seq<char>) -> Seq<Seq<char>> {
    split_on(s, ' ').filter(|p: Seq<char>| p.len() > 0)
}

/// Every stage of the pipeline has at least one token.
pub open spec fn pipeline_ok(line: Seq<char>) -> bool {
    forall|i: int|
        0 <= i < split_on(line, '|').len() ==> tokens_of(#[trigger] split_on(line, '|')[i]).len()
            > 0
}

/// The names the shell runs itself instead of spawning a process.
pub open spec fn is_builtin_name(name: Seq<char>) -> bool {
    ||| name == "exit"@
    ||| name == "jobs"@
    ||| name == "fg"@
    ||| name == "cd"@
}

/// The views of a sequence of character vectors.
pub open spec fn views_of(v: Seq<Vec<char>>) -> Seq<Seq<char>> {
    v.map_values(|t: Vec<char>| t@)
}

/// Splits a character vector at every occurrence of `sep`.
pub fn split_chars(s: &Vec<char>, sep: char) -> (r: Vec<Vec<char>>)
    ensures
        r@.len() == split_on(s@, sep).len(),
        forall|i: int| 0 <= i < r@.len() ==> (#[trigger] r@[i])@ == split_on(s@, sep)[i],
{
    let mut done: Vec<Vec<char>> = Vec::new();
    let mut cur: Vec<char> = Vec::new();
    let n = s.len();
    let mut i: usize = 0;
    while i < n
        invariant
            n == s@.len(),
            i <= n,
            split_on(s@.subrange(0, i as int), sep).len() == done@.len() + 1,
            forall|j: int|
                0 <= j < done@.len() ==> (#[trigger] done@[j])@ == split_on(
                    s@.subrange(0, i as int),
                    sep,
                )[j],
            cur@ == split_on(s@.subrange(0, i as int), sep).last(),
        decreases n - i,
    {
        let ghost pre = s@.subrange(0, i as int);
        let ghost now = s@.subrange(0, i + 1 as int);
        proof {
            assert(now.drop_last() =~= pre);
            assert(now.last() == s@[i as int]);
            lemma_split_on_nonempty(pre, sep);
        }
        let c = s[i];
        if c == sep {
            done.push(cur);
            cur = Vec::new();
        } else {
            cur.push(c);
        }
        i = i + 1;
    }
    proof {
        assert(s@.subrange(0, n as int) =~= s@);
        lemma_split_on_nonempty(s@, sep);
    }
    done.push(cur);
    done
}

/// A command line that could not be parsed.
#[derive(Clone, Copy, Debug, PartialEq, Eq, Structural)]
pub enum CmdError {
    /// A pipeline stage is empty.
    Empty,
}

/// A parsed stage carries exactly the tokens of its piece of the line:
/// the program name is the first token and the argument list is all of
/// them, name included.
pub open spec fn stage_matches(stage: (Vec<char>, Vec<Vec<char>>), piece: Seq<char>) -> bool {
    &&& stage.0@ == tokens_of(piece)[0]
    &&& stage.1@.len() == tokens_of(piece).len()
    &&& forall|j: int| 0 <= j < stage.1@.len() ==> (#[trigger] stage.1@[j])@ == tokens_of(piece)[j]
}

/// Splits a command line on the pipe symbol.
pub fn parse_pipe(line: &Vec<char>) -> (r: Vec<Vec<char>>)
    ensures
        r@.len() == split_on(line@, '|').len(),
        forall|i: int| 0 <= i < r@.len() ==> (#[trigger] r@[i])@ == split_on(line@, '|')[i],
{
    split_chars(line, '|')
}

/// Splits one pipeline stage into its program name (the first token) and
/// the full token list, which the program name leads.
pub fn parse_cmd_one(piece: &Vec<char>) -> (r: Result<(Vec<char>, Vec<Vec<char>>), CmdError>)
    ensures
        r is Ok <==> tokens_of(piece@).len() > 0,
        r matches Ok((f, args)) ==> {
            &&& f@ == tokens_of(piece@)[0]
            &&& args@.len() == tokens_of(piece@).len()
            &&& forall|i: int|
                0 <= i < args@.len() ==> (#[trigger] args@[i])@ == tokens_of(piece@)[i]
        },
{
    let pieces = split_chars(piece, ' ');
    let ghost all = split_on(piece@, ' ');
    let ghost pred = |p: Seq<char>| p.len() > 0;
    let mut args: Vec<Vec<char>> = Vec::new();
    let n = pieces.len();
    let mut j: usize = 0;
    proof {
        reveal(Seq::filter);
        assert(all.subrange(0, 0) =~= Seq::<Seq<char>>::empty());
    }
    while j < n
        invariant
            n == pieces@.len(),
            j <= n,
            n == all.len(),
            pred == (|p: Seq<char>| p.len() > 0),
            forall|i: int| 0 <= i < n ==> (#[trigger] pieces@[i])@ == all[i],
            args@.len() == all.subrange(0, j as int).filter(pred).len(),
            forall|i: int|
                0 <= i < args@.len() ==> (#[trigger] args@[i])@ == all.subrange(
                    0,
                    j as int,
                ).filter(pred)[i],
        decreases n - j,
    {
        let ghost prefix = all.subrange(0, j as int);
        let ghost now = all.subrange(0, j + 1 as int);
        proof {
            reveal(Seq::filter);
            assert(now.drop_last() =~= prefix);
            assert(now.last() == all[j as int]);
        }
        if pieces[j].len() > 0 {
            let t = crate::text::dup_chars(&pieces[j]);
            args.push(t);
        }
        j = j + 1;
    }
    proof {
        assert(all.subrange(0, n as int) =~= all);
    }
    if args.len() == 0 {
        Err(CmdError::Empty)
    } else {
        let f = crate::text::dup_chars(&args[0]);
        Ok((f, args))
    }
}

/// Parses a command line into pipeline stages, each a program name and its
/// argument tokens. A stage without tokens makes the whole line invalid.
pub fn parse_cmd(line: &Vec<char>) -> (r: Result<
    Vec<(Vec<char>, Vec<Vec<char>>)>,
    CmdError,
>)
    ensures
        r is Ok <==> pipeline_ok(line@),
        r matches Ok(v) ==> v@.len() == split_on(line@, '|').len() && (forall|i: int|
            0 <= i < v@.len() ==> stage_matches(#[trigger] v@[i], split_on(line@, '|')[i])),
{
    let cmds = parse_pipe(line);
    let mut result: Vec<(Vec<char>, Vec<Vec<char>>)> = Vec::new();
    let n = cmds.len();
    let mut i: usize = 0;
    while i < n
        invariant
            n == cmds@.len(),
            i <= n,
            n == split_on(line@, '|').len(),
            forall|k: int| 0 <= k < n ==> (#[trigger] cmds@[k])@ == split_on(line@, '|')[k],
            result@.len() == i,
            forall|k: int| 0 <= k < i ==> tokens_of(#[trigger] split_on(line@, '|')[k]).len() > 0,
            forall|k: int|
                0 <= k < i ==> stage_matches(#[trigger] result@[k], split_on(line@, '|')[k]),
        decreases n - i,
    {
        match parse_cmd_one(&cmds[i]) {
            Ok(stage) => {
                result.push(stage);
            },
            Err(e) => {
                proof {
                    assert(tokens_of(split_on(line@, '|')[i as int]).len() == 0);
                }
                return Err(e);
            },
        }
        i = i + 1;
    }
    Ok(result)
}

/// A diagnostic for the user, reported together with a failure reply.
#[derive(Clone, Copy, Debug, PartialEq, Eq, Structural)]
pub enum Diag {
    /// A pipeline stage is empty.
    EmptyCommand,
    /// A built-in command cannot take part in a pipe.
    BuiltinInPipe,
    /// Pipelines of more than two stages are unsupported.
    TooManyStages,
    /// `exit` is refused while jobs are tracked.
    ExitWithJobs,
    /// The argument of `exit` is not an integer.
    BadExitArg,
    /// `fg` needs a job id argument.
    FgUsage,
    /// The argument of `fg` names no tracked job.
    FgUnknown,
}

/// One line of the `jobs` listing.
pub struct JobReport {
    pub job_id: usize,
    pub stopped: bool,
    pub cmd: String,
}

/// What the worker asks the surrounding program to do after a command.
pub enum CmdAction {
    /// Send this reply to the read loop.
    Reply(ShellMsg),
    /// Print the diagnostic, then send the reply.
    Fail(Diag, ShellMsg),
    /// Print the job listing, then send the reply.
    Jobs(Vec<JobReport>, ShellMsg),
    /// Spawn these pipeline stages under the given fresh job id, then
    /// register them with `insert_job` and `set_foreground` (or report the
    /// failure and reply with `spawn_failed`).
    Spawn(usize, Vec<(Vec<char>, Vec<Vec<char>>)>),
    /// Change the working directory, then reply with `cd_result`.
    ChangeDir(Vec<char>),
    /// Hand the terminal to this group and deliver it a continue signal;
    /// no reply until the group next stops or exits.
    Resume(usize, usize, String),
}

/// How `exit` reacts: refused while jobs are tracked; otherwise the shell
/// quits with the given code, or with the last recorded status.
pub open spec fn exit_outcome(pre: Worker, post: Worker, toks: Seq<Seq<char>>, r: CmdAction) -> bool {
    if pre.jobs@ != Map::<usize, JobEntry>::empty() {
        &&& post == (Worker { exit_val: 1, ..pre })
        &&& r == CmdAction::Fail(Diag::ExitWithJobs, ShellMsg::Continue(1))
    } else if toks.len() >= 2 {
        if crate::text::is_i32_literal(toks[1]) {
            &&& post == pre
            &&& r == CmdAction::Reply(ShellMsg::Quit(crate::text::signed_val(toks[1]) as i32))
        } else {
            &&& post == (Worker { exit_val: 1, ..pre })
            &&& r == CmdAction::Fail(Diag::BadExitArg, ShellMsg::Continue(1))
        }
    } else {
        &&& post == pre
        &&& r == CmdAction::Reply(ShellMsg::Quit(pre.exit_val))
    }
}

/// How `jobs` reacts: lists every job in id order with its stopped/running
/// state and command line, and always succeeds.
pub open spec fn jobs_outcome(pre: Worker, post: Worker, r: CmdAction) -> bool {
    &&& post == (Worker { exit_val: 0, ..pre })
    &&& r matches CmdAction::Jobs(list, msg) && msg == ShellMsg::Continue(0) && list@.len()
        == pre.jobs.entries_seq().len() && (forall|i: int|
        0 <= i < list@.len() ==> {
            &&& (#[trigger] list@[i]).job_id == pre.jobs.entries_seq()[i].0
            &&& list@[i].cmd == pre.jobs.entries_seq()[i].1.cmd
            &&& list@[i].stopped == pre.group_stopped(pre.jobs.entries_seq()[i].1.pgid)
        })
}

/// How `fg` reacts: with a valid id of a tracked job, that job's group
/// becomes foreground and is resumed, and no reply is sent; anything else
/// is a failure reply that leaves the foreground pointer alone.
pub open spec fn fg_outcome(pre: Worker, post: Worker, toks: Seq<Seq<char>>, r: CmdAction) -> bool {
    if toks.len() < 2 {
        &&& post == (Worker { exit_val: 1, ..pre })
        &&& r == CmdAction::Fail(Diag::FgUsage, ShellMsg::Continue(1))
    } else if crate::text::is_usize_literal(toks[1]) && pre.jobs@.contains_key(
        crate::text::digits_val(crate::text::unsigned_body(toks[1])) as usize,
    ) {
        let n = crate::text::digits_val(crate::text::unsigned_body(toks[1])) as usize;
        &&& post == (Worker { exit_val: 1, fg: Some(pre.jobs@[n].pgid), ..pre })
        &&& r == CmdAction::Resume(n, pre.jobs@[n].pgid, pre.jobs@[n].cmd)
    } else {
        &&& post == (Worker { exit_val: 1, ..pre })
        &&& r == CmdAction::Fail(Diag::FgUnknown, ShellMsg::Continue(1))
    }
}

/// How `cd` picks its target: the argument when given, the home directory
/// (or the root directory) otherwise.
pub open spec fn cd_outcome(toks: Seq<Seq<char>>, r: CmdAction) -> bool {
    if toks.len() >= 2 {
        r matches CmdAction::ChangeDir(p) && p@ == toks[1]
    } else {
        r is ChangeDir
    }
}

/// How an external pipeline is dispatched: a fresh smallest job id and the
/// parsed stages, with the tables untouched until registration.
pub open spec fn spawn_outcome(pre: Worker, line: Seq<char>, r: CmdAction) -> bool {
    let stages = split_on(line, '|');
    r matches CmdAction::Spawn(job_id, cmd) && {
        &&& !pre.jobs@.contains_key(job_id)
        &&& (forall|j: usize| j < job_id ==> pre.jobs@.contains_key(j))
        &&& cmd@.len() == stages.len()
        &&& forall|i: int|
            0 <= i < stages.len() ==> stage_matches(#[trigger] cmd@[i], stages[i])
    }
}

/// The whole reaction of the worker to one command line.
pub open spec fn cmd_outcome(pre: Worker, post: Worker, line: Seq<char>, r: CmdAction) -> bool {
    if !pipeline_ok(line) {
        &&& post == pre
        &&& r == CmdAction::Fail(Diag::EmptyCommand, ShellMsg::Continue(pre.exit_val))
    } else {
        let stages = split_on(line, '|');
        let toks = tokens_of(stages[0]);
        let name = toks[0];
        if stages.len() > 1 && is_builtin_name(name) {
            &&& post == (Worker { exit_val: 1, ..pre })
            &&& r == CmdAction::Fail(Diag::BuiltinInPipe, ShellMsg::Continue(1))
        } else if stages.len() == 1 && name == "exit"@ {
            exit_outcome(pre, post, toks, r)
        } else if stages.len() == 1 && name == "jobs"@ {
            jobs_outcome(pre, post, r)
        } else if stages.len() == 1 && name == "fg"@ {
            fg_outcome(pre, post, toks, r)
        } else if stages.len() == 1 && name == "cd"@ {
            &&& post == pre
            &&& cd_outcome(toks, r)
        } else if stages.len() > 2 {
            &&& post == pre
            &&& r == CmdAction::Fail(Diag::TooManyStages, ShellMsg::Continue(pre.exit_val))
        } else {
            &&& post == pre
            &&& spawn_outcome(pre, line, r)
        }
    }
}

/// The directory a bare `cd` goes to, for whichever answer the home
/// lookup gave: the home directory when the system names one, the root
/// directory otherwise.
pub fn cd_target(home: Option<String>) -> (p: Vec<char>)
    ensures
        home matches Some(h) ==> p@ == h@,
        home is None ==> p@ == seq!['/'],
{
    match home {
        Some(h) => crate::text::to_chars(h.as_str()),
        None => {
            let mut v: Vec<char> = Vec::new();
            v.push('/');
            proof {
                assert(v@ =~= seq!['/']);
            }
            v
        },
    }
}

/// Relies on dirs::home_dir: the user's home directory, when the system
/// knows one, as a string. The result depends on the environment, so
/// nothing is promised of it.
#[verifier::external_body]
fn home_dir_string() -> (r: Option<String>) {
    dirs::home_dir().and_then(|p| p.to_str().map(|s| s.to_owned()))
}

impl Worker {
    /// Runs `exit`: refused while jobs are tracked, else quits with the
    /// argument or, without one, with the last recorded status.
    pub fn run_exit(&mut self, args: &Vec<Vec<char>>) -> (r: CmdAction)
        requires
            old(self).wf(),
        ensures
            final(self).wf(),
            exit_outcome(*old(self), *final(self), views_of(args@), r),
    {
        if !self.jobs.is_empty() {
            self.exit_val = 1;
            proof {
                lemma_wf_after_state_change(*old(self), *self);
            }
            return CmdAction::Fail(Diag::ExitWithJobs, ShellMsg::Continue(1));
        }
        if args.len() >= 2 {
            proof {
                assert(views_of(args@)[1] == args@[1]@);
            }
            match crate::text::parse_i32(&args[1]) {
                Some(n) => CmdAction::Reply(ShellMsg::Quit(n)),
                None => {
                    self.exit_val = 1;
                    proof {
                        lemma_wf_after_state_change(*old(self), *self);
                    }
                    CmdAction::Fail(Diag::BadExitArg, ShellMsg::Continue(1))
                },
            }
        } else {
            CmdAction::Reply(ShellMsg::Quit(self.exit_val))
        }
    }

    /// Runs `jobs`: reports every job in id order and records success.
    pub fn run_jobs(&mut self) -> (r: CmdAction)
        requires
            old(self).wf(),
        ensures
            final(self).wf(),
            jobs_outcome(*old(self), *final(self), r),
    {
        let mut list: Vec<JobReport> = Vec::new();
        let n = self.jobs.len();
        let mut i: usize = 0;
        while i < n
            invariant
                *self == *old(self),
                self.wf(),
                n == self.jobs.entries_seq().len(),
                i <= n,
                list@.len() == i,
                forall|k: int|
                    0 <= k < i ==> {
                        &&& (#[trigger] list@[k]).job_id == self.jobs.entries_seq()[k].0
                        &&& list@[k].cmd == self.jobs.entries_seq()[k].1.cmd
                        &&& list@[k].stopped == self.group_stopped(
                            self.jobs.entries_seq()[k].1.pgid,
                        )
                    },
            decreases n - i,
        {
            let (job_id, entry) = self.jobs.at(i);
            let pgid = entry.pgid;
            let cmd = entry.cmd.clone();
            proof {
                self.jobs.lemma_view();
                assert(self.jobs@.contains_key(self.jobs.entries_seq()[i as int].0));
                assert(self.job_ok(self.jobs.entries_seq()[i as int].0));
            }
            let stopped = match self.is_group_stop(pgid) {
                Some(b) => b,
                None => {
                    proof {
                        assert(false);
                    }
                    false
                },
            };
            list.push(JobReport { job_id, stopped, cmd });
            i = i + 1;
        }
        self.exit_val = 0;
        proof {
            lemma_wf_after_state_change(*old(self), *self);
        }
        CmdAction::Jobs(list, ShellMsg::Continue(0))
    }

    /// Runs `fg`: hands the terminal to a tracked job's group and resumes
    /// it, or reports why it cannot.
    pub fn run_fg(&mut self, args: &Vec<Vec<char>>) -> (r: CmdAction)
        requires
            old(self).wf(),
        ensures
            final(self).wf(),
            fg_outcome(*old(self), *final(self), views_of(args@), r),
    {
        self.exit_val = 1;
        proof {
            lemma_wf_after_state_change(*old(self), *self);
        }
        if args.len() < 2 {
            return CmdAction::Fail(Diag::FgUsage, ShellMsg::Continue(1));
        }
        proof {
            assert(views_of(args@)[1] == args@[1]@);
        }
        if let Some(n) = crate::text::parse_usize(&args[1]) {
            let found = match self.jobs.get(n) {
                Some(e) => Some((e.pgid, e.cmd.clone())),
                None => None,
            };
            if let Some((pgid, cmd)) = found {
                proof {
                    assert(self.job_ok(n));
                }
                self.fg = Some(pgid);
                return CmdAction::Resume(n, pgid, cmd);
            }
        }
        CmdAction::Fail(Diag::FgUnknown, ShellMsg::Continue(1))
    }

    /// Runs `cd`: picks the target directory — the argument, or the home
    /// directory, or the root directory — and asks for the change; the
    /// result comes back through `cd_result`.
    pub fn run_cd(&self, args: &Vec<Vec<char>>) -> (r: CmdAction)
        ensures
            cd_outcome(views_of(args@), r),
    {
        if args.len() >= 2 {
            proof {
                assert(views_of(args@)[1] == args@[1]@);
            }
            CmdAction::ChangeDir(crate::text::dup_chars(&args[1]))
        } else {
            CmdAction::ChangeDir(cd_target(home_dir_string()))
        }
    }

    /// Records whether the directory change succeeded and produces the
    /// reply that resumes the read loop.
    pub fn cd_result(&mut self, ok: bool) -> (r: ShellMsg)
        requires
            old(self).wf(),
        ensures
            final(self).wf(),
            final(self).exit_val == if ok {
                0int
            } else {
                1int
            },
            r == ShellMsg::Continue(final(self).exit_val),
            final(self).jobs@ == old(self).jobs@,
            final(self).pgid_to_pids@ == old(self).pgid_to_pids@,
            final(self).pid_to_info@ == old(self).pid_to_info@,
            final(self).fg == old(self).fg,
            final(self).shell_pgid == old(self).shell_pgid,
    {
        self.exit_val = if ok {
            0
        } else {
            1
        };
        proof {
            lemma_wf_after_state_change(*old(self), *self);
        }
        ShellMsg::Continue(self.exit_val)
    }

    /// The reply after a spawn failure: the read loop resumes with the
    /// last recorded status.
    pub fn spawn_failed(&self) -> (r: ShellMsg)
        ensures
            r == ShellMsg::Continue(self.exit_val),
    {
        ShellMsg::Continue(self.exit_val)
    }

    /// Whether the worker tracks this process.
    pub fn knows_pid(&self, pid: usize) -> (r: bool)
        ensures
            r == self.pid_to_info@.contains_key(pid),
    {
        self.pid_to_info.contains_key(&pid)
    }

    /// Whether the worker tracks this process group.
    pub fn knows_group(&self, pgid: usize) -> (r: bool)
        ensures
            r == self.pgid_to_pids@.contains_key(pgid),
    {
        self.pgid_to_pids.contains_key(&pgid)
    }

    /// Whether the worker tracks this job id.
    pub fn knows_job(&self, job_id: usize) -> (r: bool)
        requires
            self.jobs.wf(),
        ensures
            r == self.jobs@.contains_key(job_id),
    {
        self.jobs.contains_key(job_id)
    }

    /// Runs a built-in; `None` when the first token names none.
    pub fn built_in_cmd(&mut self, cmd: &Vec<(Vec<char>, Vec<Vec<char>>)>) -> (r: Option<
        CmdAction,
    >)
        requires
            old(self).wf(),
            cmd@.len() >= 1,
        ensures
            final(self).wf(),
            r is None <==> !is_builtin_name(cmd@[0].0@),
            r is None ==> *final(self) == *old(self),
            cmd@.len() > 1 && is_builtin_name(cmd@[0].0@) ==> *final(self) == (Worker {
                exit_val: 1,
                ..*old(self)
            }) && r == Some(
                CmdAction::Fail(Diag::BuiltinInPipe, ShellMsg::Continue(1)),
            ),
            cmd@.len() == 1 && cmd@[0].0@ == "exit"@ ==> (r matches Some(a) && exit_outcome(
                *old(self),
                *final(self),
                views_of(cmd@[0].1@),
                a,
            )),
            cmd@.len() == 1 && cmd@[0].0@ == "jobs"@ ==> (r matches Some(a) && jobs_outcome(
                *old(self),
                *final(self),
                a,
            )),
            cmd@.len() == 1 && cmd@[0].0@ == "fg"@ ==> (r matches Some(a) && fg_outcome(
                *old(self),
                *final(self),
                views_of(cmd@[0].1@),
                a,
            )),
            cmd@.len() == 1 && cmd@[0].0@ == "cd"@ ==> (r matches Some(a) && cd_outcome(
                views_of(cmd@[0].1@),
                a,
            ) && *final(self) == *old(self)),
    {
        proof {
            reveal_strlit("exit");
            reveal_strlit("jobs");
            reveal_strlit("fg");
            reveal_strlit("cd");
            assert("exit"@ != "jobs"@) by {
                assert("exit"@[0] != "jobs"@[0]);
            }
            assert("fg"@ != "cd"@) by {
                assert("fg"@[0] != "cd"@[0]);
            }
            assert("exit"@ != "fg"@ && "exit"@ != "cd"@ && "jobs"@ != "fg"@ && "jobs"@ != "cd"@) by {
                assert("exit"@.len() == 4 && "jobs"@.len() == 4 && "fg"@.len() == 2 && "cd"@.len()
                    == 2);
            }
        }
        let name = &cmd[0].0;
        let is_exit = crate::text::token_is(name, "exit");
        let is_jobs = crate::text::token_is(name, "jobs");
        let is_fg = crate::text::token_is(name, "fg");
        let is_cd = crate::text::token_is(name, "cd");
        if !(is_exit || is_jobs || is_fg || is_cd) {
            return None;
        }
        if cmd.len() > 1 {
            self.exit_val = 1;
            proof {
                lemma_wf_after_state_change(*old(self), *self);
            }
            return Some(CmdAction::Fail(Diag::BuiltinInPipe, ShellMsg::Continue(1)));
        }
        if is_exit {
            Some(self.run_exit(&cmd[0].1))
        } else if is_jobs {
            Some(self.run_jobs())
        } else if is_fg {
            Some(self.run_fg(&cmd[0].1))
        } else {
            Some(self.run_cd(&cmd[0].1))
        }
    }

    /// Reacts to one command line from the read loop: a parse failure or a
    /// built-in answers at once; an external pipeline of at most two
    /// stages is handed out for spawning under a fresh job id.
    pub fn on_cmd(&mut self, line: &String) -> (r: CmdAction)
        requires
            old(self).wf(),
        ensures
            final(self).wf(),
            cmd_outcome(*old(self), *final(self), line@, r),
    {
        let chars = crate::text::to_chars(line.as_str());
        let cmd = match parse_cmd(&chars) {
            Ok(cmd) => cmd,
            Err(_) => {
                return CmdAction::Fail(Diag::EmptyCommand, ShellMsg::Continue(self.exit_val));
            },
        };
        proof {
            lemma_split_on_nonempty(line@, '|');
            assert(views_of(cmd@[0].1@) =~= tokens_of(split_on(line@, '|')[0]));
        }
        if let Some(action) = self.built_in_cmd(&cmd) {
            return action;
        }
        if cmd.len() > 2 {
            return CmdAction::Fail(Diag::TooManyStages, ShellMsg::Continue(self.exit_val));
        }
        let job_id = self.get_new_job_id();
        CmdAction::Spawn(job_id, cmd)
    }
}

/// Whole-worker invariance under changes that keep the shape of all three
/// tables: same job table, same groups, same foreground pointer, same set
/// of tracked processes each still pointing at its old group.
proof fn lemma_wf_after_state_change(w1: Worker, w2: Worker)
    requires
        w1.wf(),
        w2.jobs == w1.jobs,
        w2.pgid_to_pids@ == w1.pgid_to_pids@,
        w2.fg == w1.fg,
        forall|p: usize|
            #[trigger] w2.pid_to_info@.contains_key(p) <==> #[trigger] w1.pid_to_info@.contains_key(
                p,
            ),
        forall|p: usize|
            #[trigger] w1.pid_to_info@.contains_key(p) ==> w2.pid_to_info@[p].pgid
                == w1.pid_to_info@[p].pgid,
    ensures
        w2.wf(),
{
    assert forall|j: usize| #[trigger] w2.jobs@.contains_key(j) implies w2.job_ok(j) by {
        assert(w1.job_ok(j));
    }
    assert forall|pg: usize| #[trigger] w2.pgid_to_pids@.contains_key(pg) implies w2.group_ok(
        pg,
    ) by {
        assert(w1.group_ok(pg));
        assert forall|x: int| 0 <= x < w2.pgid_to_pids@[pg].pids@.len() implies w2.member_ok(
            pg,
            #[trigger] w2.pgid_to_pids@[pg].pids@[x],
        ) by {
            assert(w1.member_ok(pg, w1.pgid_to_pids@[pg].pids@[x]));
        }
    }
    assert forall|p: usize| #[trigger] w2.pid_to_info@.contains_key(p) implies w2.pid_ok(p) by {
        assert(w1.pid_to_info@.contains_key(p));
        assert(w1.pid_ok(p));
    }
}

/// Table consistency after one process is dropped from group `pg` (the
/// entry at index `i` of its member list) and from the process table.
proof fn lemma_wf_after_remove_pid(w1: Worker, w2: Worker, pid: usize, pg: usize, i: int)
    requires
        w1.wf(),
        w1.pid_to_info@.contains_key(pid),
        w1.pid_to_info@[pid].pgid == pg,
        0 <= i < w1.pgid_to_pids@[pg].pids@.len(),
        w1.pgid_to_pids@[pg].pids@[i] == pid,
        w2.jobs == w1.jobs,
        w2.fg == w1.fg,
        w2.pid_to_info@ == w1.pid_to_info@.remove(pid),
        w2.pgid_to_pids@.dom() == w1.pgid_to_pids@.dom(),
        w2.pgid_to_pids@[pg].job_id == w1.pgid_to_pids@[pg].job_id,
        w2.pgid_to_pids@[pg].pids@ == w1.pgid_to_pids@[pg].pids@.remove(i),
        forall|pg2: usize|
            pg2 != pg && #[trigger] w2.pgid_to_pids@.contains_key(pg2) ==> w2.pgid_to_pids@[pg2]
                == w1.pgid_to_pids@[pg2],
    ensures
        w2.tables_ok(),
        w2.fg_ok(),
        forall|pg2: usize|
            pg2 != pg && #[trigger] w2.pgid_to_pids@.contains_key(pg2)
                ==> w2.pgid_to_pids@[pg2].pids@.len() > 0,
        forall|q: usize|
            w2.pgid_to_pids@[pg].pids@.contains(q) <==> (w1.pgid_to_pids@[pg].pids@.contains(q) && q
                != pid),
        forall|x: int|
            0 <= x < w2.pgid_to_pids@[pg].pids@.len() ==> w1.pgid_to_pids@[pg].pids@.contains(
                #[trigger] w2.pgid_to_pids@[pg].pids@[x],
            ),
{
    let olds = w1.pgid_to_pids@[pg].pids@;
    let news = w2.pgid_to_pids@[pg].pids@;
    assert(w1.group_ok(pg));
    assert forall|q: usize| news.contains(q) implies (olds.contains(q) && q != pid) by {
        let x = choose|x: int| 0 <= x < news.len() && news[x] == q;
        if x < i {
            assert(olds[x] == q);
        } else {
            assert(olds[x + 1] == q);
        }
        assert(olds.contains(q));
        if q == pid {
            let y: int = if x < i {
                x
            } else {
                x + 1
            };
            assert(olds[y] == pid && olds[i] == pid && y != i);
        }
    }
    assert forall|q: usize| olds.contains(q) && q != pid implies news.contains(q) by {
        let x = choose|x: int| 0 <= x < olds.len() && olds[x] == q;
        assert(x != i);
        if x < i {
            assert(news[x] == q);
        } else {
            assert(news[x - 1] == q);
        }
    }
    assert forall|x: int| 0 <= x < news.len() implies olds.contains(#[trigger] news[x]) by {
        if x < i {
            assert(olds[x] == news[x]);
        } else {
            assert(olds[x + 1] == news[x]);
        }
    }
    assert forall|j: usize| #[trigger] w2.jobs@.contains_key(j) implies w2.job_ok(j) by {
        assert(w1.job_ok(j));
    }
    assert forall|pg2: usize| #[trigger] w2.pgid_to_pids@.contains_key(pg2) implies w2.group_ok(
        pg2,
    ) by {
        assert(w1.pgid_to_pids@.contains_key(pg2));
        assert(w1.group_ok(pg2));
        if pg2 == pg {
            assert forall|x: int| 0 <= x < news.len() implies w2.member_ok(
                pg,
                #[trigger] news[x],
            ) by {
                assert(olds.contains(news[x]));
                let y = choose|y: int| 0 <= y < olds.len() && olds[y] == news[x];
                assert(w1.member_ok(pg, olds[y]));
                assert(news[x] != pid);
            }
            assert forall|x: int, y: int| 0 <= x < y < news.len() implies (#[trigger] news[x]) != (
            #[trigger] news[y]) by {
                let xo: int = if x < i {
                    x
                } else {
                    x + 1
                };
                let yo: int = if y < i {
                    y
                } else {
                    y + 1
                };
                assert(news[x] == olds[xo] && news[y] == olds[yo]);
                assert(xo < yo);
            }
        } else {
            assert(w2.pgid_to_pids@[pg2] == w1.pgid_to_pids@[pg2]);
            assert forall|x: int| 0 <= x < w2.pgid_to_pids@[pg2].pids@.len() implies w2.member_ok(
                pg2,
                #[trigger] w2.pgid_to_pids@[pg2].pids@[x],
            ) by {
                let q = w1.pgid_to_pids@[pg2].pids@[x];
                assert(w1.member_ok(pg2, q));
                assert(q != pid) by {
                    if q == pid {
                        assert(w1.pid_to_info@[q].pgid == pg2);
                        assert(w1.pid_to_info@[pid].pgid == pg);
                    }
                }
            }
        }
    }
    assert forall|p: usize| #[trigger] w2.pid_to_info@.contains_key(p) implies w2.pid_ok(p) by {
        assert(p != pid);
        assert(w1.pid_to_info@.contains_key(p));
        assert(w1.pid_ok(p));
        let pgp = w1.pid_to_info@[p].pgid;
        if pgp == pg {
            assert(olds.contains(p));
            assert(news.contains(p));
        } else {
            assert(w2.pgid_to_pids@[pgp] == w1.pgid_to_pids@[pgp]);
        }
    }
}

/// Table consistency after a job and its empty group are dropped.
proof fn lemma_wf_after_remove_job(w1: Worker, w2: Worker, job_id: usize, pg: usize)
    requires
        w1.tables_ok(),
        w1.jobs@.contains_key(job_id),
        w1.jobs@[job_id].pgid == pg,
        w1.pgid_to_pids@[pg].pids@.len() == 0,
        w2.jobs@ == w1.jobs@.remove(job_id),
        w2.jobs.wf(),
        w2.pgid_to_pids@ == w1.pgid_to_pids@.remove(pg),
        w2.pid_to_info@ == w1.pid_to_info@,
    ensures
        w2.tables_ok(),
{
    assert(w1.job_ok(job_id));
    assert forall|j: usize| #[trigger] w2.jobs@.contains_key(j) implies w2.job_ok(j) by {
        assert(w1.jobs@.contains_key(j) && j != job_id);
        assert(w1.job_ok(j));
        assert(w1.jobs@[j].pgid != pg) by {
            if w1.jobs@[j].pgid == pg {
                assert(w1.pgid_to_pids@[pg].job_id == j);
                assert(w1.pgid_to_pids@[pg].job_id == job_id);
            }
        }
    }
    assert forall|pg2: usize| #[trigger] w2.pgid_to_pids@.contains_key(pg2) implies w2.group_ok(
        pg2,
    ) by {
        assert(pg2 != pg);
        assert(w1.pgid_to_pids@.contains_key(pg2));
        assert(w1.group_ok(pg2));
        assert(w1.pgid_to_pids@[pg2].job_id != job_id) by {
            if w1.pgid_to_pids@[pg2].job_id == job_id {
                assert(w1.jobs@[job_id].pgid == pg2);
            }
        }
        assert forall|x: int| 0 <= x < w2.pgid_to_pids@[pg2].pids@.len() implies w2.member_ok(
            pg2,
            #[trigger] w2.pgid_to_pids@[pg2].pids@[x],
        ) by {
            assert(w1.member_ok(pg2, w1.pgid_to_pids@[pg2].pids@[x]));
        }
    }
    assert forall|p: usize| #[trigger] w2.pid_to_info@.contains_key(p) implies w2.pid_ok(p) by {
        assert(w1.pid_ok(p));
        let pgp = w1.pid_to_info@[p].pgid;
        assert(pgp != pg) by {
            if pgp == pg {
                assert(w1.pgid_to_pids@[pg].pids@.contains(p));
                let x = choose|x: int|
                    0 <= x < w1.pgid_to_pids@[pg].pids@.len() && w1.pgid_to_pids@[pg].pids@[x] == p;
            }
        }
    }
}

/// Table consistency after a new job, group, and members are registered.
proof fn lemma_wf_after_insert_job(w1: Worker, w2: Worker, job_id: usize, pg: usize, pids: Seq<
    usize,
>)
    requires
        w1.wf(),
        !w1.jobs@.contains_key(job_id),
        !w1.pgid_to_pids@.contains_key(pg),
        pids.len() > 0,
        forall|x: int, y: int| 0 <= x < y < pids.len() ==> pids[x] != pids[y],
        forall|x: int| 0 <= x < pids.len() ==> !w1.pid_to_info@.contains_key(#[trigger] pids[x]),
        w2.jobs.wf(),
        exists|e: JobEntry| e.pgid == pg && w2.jobs@ == w1.jobs@.insert(job_id, e),
        w2.pgid_to_pids@.contains_key(pg),
        w2.pgid_to_pids@[pg].job_id == job_id,
        w2.pgid_to_pids@[pg].pids@ == pids,
        forall|pg2: usize|
            pg2 != pg ==> (#[trigger] w2.pgid_to_pids@.contains_key(pg2)
                == w1.pgid_to_pids@.contains_key(pg2)) && (w2.pgid_to_pids@.contains_key(pg2)
                ==> w2.pgid_to_pids@[pg2] == w1.pgid_to_pids@[pg2]),
        forall|x: int|
            0 <= x < pids.len() ==> w2.pid_to_info@.contains_key(#[trigger] pids[x])
                && w2.pid_to_info@[pids[x]] == (ProcInfo { state: ProcState::Run, pgid: pg }),
        forall|q: usize|
            !pids.contains(q) ==> (#[trigger] w2.pid_to_info@.contains_key(q)
                == w1.pid_to_info@.contains_key(q)) && (w2.pid_to_info@.contains_key(q)
                ==> w2.pid_to_info@[q] == w1.pid_to_info@[q]),
        forall|q: usize|
            #[trigger] w2.pid_to_info@.contains_key(q) ==> w1.pid_to_info@.contains_key(q)
                || pids.contains(q),
        w2.fg == w1.fg,
    ensures
        w2.wf(),
{
    assert forall|j: usize| #[trigger] w2.jobs@.contains_key(j) implies w2.job_ok(j) by {
        if j == job_id {
        } else {
            assert(w1.jobs@.contains_key(j));
            assert(w1.job_ok(j));
            assert(w1.jobs@[j].pgid != pg);
            assert(w2.jobs@[j] == w1.jobs@[j]);
        }
    }
    assert forall|pg2: usize| #[trigger] w2.pgid_to_pids@.contains_key(pg2) implies w2.group_ok(
        pg2,
    ) by {
        if pg2 == pg {
            assert forall|x: int| 0 <= x < pids.len() implies w2.member_ok(
                pg,
                #[trigger] pids[x],
            ) by {}
        } else {
            assert(w2.pgid_to_pids@.contains_key(pg2) == w1.pgid_to_pids@.contains_key(pg2));
            assert(w1.pgid_to_pids@.contains_key(pg2));
            assert(w2.pgid_to_pids@[pg2] == w1.pgid_to_pids@[pg2]);
            assert(w1.group_ok(pg2));
            assert(w1.pgid_to_pids@[pg2].job_id != job_id) by {
                if w1.pgid_to_pids@[pg2].job_id == job_id {
                    assert(w1.jobs@.contains_key(job_id));
                }
            }
            assert(w2.jobs@[w1.pgid_to_pids@[pg2].job_id] == w1.jobs@[w1.pgid_to_pids@[pg2].job_id]);
            assert forall|x: int| 0 <= x < w2.pgid_to_pids@[pg2].pids@.len() implies w2.member_ok(
                pg2,
                #[trigger] w2.pgid_to_pids@[pg2].pids@[x],
            ) by {
                let q = w1.pgid_to_pids@[pg2].pids@[x];
                assert(w1.member_ok(pg2, q));
                assert(!pids.contains(q)) by {
                    if pids.contains(q) {
                        let y = choose|y: int| 0 <= y < pids.len() && pids[y] == q;
                        assert(!w1.pid_to_info@.contains_key(pids[y]));
                    }
                }
            }
        }
    }
    assert forall|p: usize| #[trigger] w2.pid_to_info@.contains_key(p) implies w2.pid_ok(p) by {
        if pids.contains(p) {
            let x = choose|x: int| 0 <= x < pids.len() && pids[x] == p;
            assert(w2.pid_to_info@[p].pgid == pg);
            assert(w2.pgid_to_pids@[pg].pids@[x] == p);
        } else {
            assert(w1.pid_to_info@.contains_key(p));
            assert(w1.pid_ok(p));
            let pgp = w1.pid_to_info@[p].pgid;
            assert(pgp != pg);
            assert(w2.pgid_to_pids@.contains_key(pgp) == w1.pgid_to_pids@.contains_key(pgp));
            assert(w2.pgid_to_pids@[pgp] == w1.pgid_to_pids@[pgp]);
        }
    }
    assert forall|pg2: usize| #[trigger] w2.pgid_to_pids@.contains_key(pg2) implies
    w2.pgid_to_pids@[pg2].pids@.len() > 0 by {
        if pg2 != pg {
            assert(w1.pgid_to_pids@.contains_key(pg2));
        }
    }
}

} // verus!
