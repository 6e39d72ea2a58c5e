//! The worker's tables: jobs, process groups and processes.
use crate::effect::Pid;
use std::collections::{BTreeMap, HashMap, HashSet};
use vstd::prelude::*;

verus! {

/// What a process is doing.
#[derive(Debug, Clone, Copy, PartialEq, Eq, Structural)]
pub enum ProcState {
    /// It runs.
    Run,
    /// It is stopped.
    Stop,
}

/// What is known of a process.
#[derive(Debug, Clone, Copy, PartialEq, Eq, Structural)]
pub struct ProcInfo {
    /// What it is doing.
    pub state: ProcState,
    /// The process group that it belongs to.
    pub pgid: Pid,
}

/// The worker: it keeps the jobs and carries out the command lines.
#[derive(Debug)]
pub struct Worker {
    /// The last exit code.
    exit_val: i32,
    /// The process group in the foreground; none where it is the shell's own.
    fg: Option<Pid>,
    /// From a job to its process group and its command line.
    jobs: BTreeMap<usize, (Pid, String)>,
    /// From a process group to its job and its processes.
    pgid_to_pids: HashMap<Pid, (usize, HashSet<Pid>)>,
    /// From a process to what is known of it.
    pid_to_info: HashMap<Pid, ProcInfo>,
    /// The shell's own process group.
    shell_pgid: Pid,
}

/// A worker's contents.
#[verifier::ext_equal]
pub struct WorkerView {
    pub exit_val: i32,
    pub fg: Option<Pid>,
    pub jobs: Map<usize, (Pid, Seq<char>)>,
    pub groups: Map<Pid, (usize, Set<Pid>)>,
    pub procs: Map<Pid, ProcInfo>,
    pub shell_pgid: Pid,
}

impl View for Worker {
    type V = WorkerView;

    closed spec fn view(&self) -> WorkerView {
        WorkerView {
            exit_val: self.exit_val,
            fg: self.fg,
            jobs: self.jobs@.map_values(|job: (Pid, String)| (job.0, job.1@)),
            groups: self.pgid_to_pids@.map_values(|group: (usize, HashSet<Pid>)| (group.0, group.1@)),
            procs: self.pid_to_info@,
            shell_pgid: self.shell_pgid,
        }
    }
}

impl WorkerView {
    /// The tables agree with one another: every job has a process group and every process
    /// group a job, each the other's only one; a process belongs to exactly the group that
    /// lists it; and the group in the foreground is that of a job.
    pub open spec fn wf(self) -> bool {
        &&& forall|job_id: usize| #[trigger]
            self.jobs.contains_key(job_id) ==> self.groups.contains_key(self.jobs[job_id].0)
                && self.groups[self.jobs[job_id].0].0 == job_id
        &&& forall|pgid: Pid| #[trigger]
            self.groups.contains_key(pgid) ==> self.jobs.contains_key(self.groups[pgid].0)
                && self.jobs[self.groups[pgid].0].0 == pgid
        &&& forall|pgid: Pid, pid: Pid|
            self.groups.contains_key(pgid) && #[trigger] self.groups[pgid].1.contains(pid)
                ==> self.procs.contains_key(pid) && self.procs[pid].pgid == pgid
        &&& forall|pid: Pid| #[trigger]
            self.procs.contains_key(pid) ==> self.groups.contains_key(self.procs[pid].pgid)
                && self.groups[self.procs[pid].pgid].1.contains(pid)
        &&& self.fg matches Some(pgid) ==> self.groups.contains_key(pgid)
    }

    /// Every job has a process left.
    pub open spec fn settled(self) -> bool {
        forall|pgid: Pid| #[trigger]
            self.groups.contains_key(pgid) ==> !self.groups[pgid].1.is_empty()
    }

    /// Every job but that of one process group has a process left.
    pub open spec fn settled_but(self, but: Pid) -> bool {
        forall|pgid: Pid| #[trigger]
            self.groups.contains_key(pgid) && pgid != but ==> !self.groups[pgid].1.is_empty()
    }

    /// A worker without jobs.
    pub open spec fn new(shell_pgid: Pid) -> WorkerView {
        WorkerView {
            exit_val: 0,
            fg: None,
            jobs: Map::empty(),
            groups: Map::empty(),
            procs: Map::empty(),
            shell_pgid,
        }
    }

    /// One more job.
    pub open spec fn insert_job(
        self,
        job_id: usize,
        pgid: Pid,
        pids: Map<Pid, ProcInfo>,
        line: Seq<char>,
    ) -> WorkerView {
        WorkerView {
            jobs: self.jobs.insert(job_id, (pgid, line)),
            groups: self.groups.insert(pgid, (job_id, pids.dom())),
            procs: self.procs.union_prefer_right(pids),
            ..self
        }
    }

    /// A process that is now in another state, where there is such a process.
    pub open spec fn set_pid_state(self, pid: Pid, state: ProcState) -> WorkerView {
        if self.procs.contains_key(pid) {
            WorkerView {
                procs: self.procs.insert(pid, ProcInfo { state, pgid: self.procs[pid].pgid }),
                ..self
            }
        } else {
            self
        }
    }

    /// The job and the process group of a process.
    pub open spec fn home(self, pid: Pid) -> Option<(usize, Pid)> {
        if self.procs.contains_key(pid) && self.groups.contains_key(self.procs[pid].pgid) {
            Some((self.groups[self.procs[pid].pgid].0, self.procs[pid].pgid))
        } else {
            None
        }
    }

    /// A process taken out of the tables, where it is in them.
    pub open spec fn remove_pid(self, pid: Pid) -> WorkerView {
        match self.home(pid) {
            Some((job_id, pgid)) => WorkerView {
                groups: self.groups.insert(pgid, (job_id, self.groups[pgid].1.remove(pid))),
                procs: self.procs.remove(pid),
                ..self
            },
            None => self,
        }
    }

    /// A job taken out of the tables, together with its process group.
    pub open spec fn remove_job(self, job_id: usize) -> WorkerView {
        if self.jobs.contains_key(job_id) {
            WorkerView {
                jobs: self.jobs.remove(job_id),
                groups: self.groups.remove(self.jobs[job_id].0),
                ..self
            }
        } else {
            self
        }
    }

    /// Whether every process of a group is stopped.
    pub open spec fn group_stopped(self, pgid: Pid) -> bool {
        forall|pid: Pid| #[trigger]
            self.groups[pgid].1.contains(pid) ==> self.procs[pid].state == ProcState::Stop
    }

    /// Whether every process of a group is known, where there is such a group.
    pub open spec fn group_known(self, pgid: Pid) -> bool {
        self.groups.contains_key(pgid) ==> self.groups[pgid].1.subset_of(self.procs.dom())
    }

    /// The number for a new job: the smallest that no job has.
    pub open spec fn is_new_job_id(self, job_id: usize) -> bool {
        &&& !self.jobs.contains_key(job_id)
        &&& forall|other: usize| other < job_id ==> #[trigger] self.jobs.contains_key(other)
    }

    /// The number for a new job; none where every number is taken.
    pub open spec fn new_job_id(self) -> Option<usize> {
        if exists|job_id: usize| self.is_new_job_id(job_id) {
            Some(choose|job_id: usize| self.is_new_job_id(job_id))
        } else {
            None
        }
    }
}

/// The numbers of a set below a bound, in ascending order.
pub open spec fn ascending(ids: Set<usize>, bound: nat) -> Seq<usize>
    decreases bound,
{
    if bound == 0 {
        Seq::empty()
    } else {
        let below = ascending(ids, (bound - 1) as nat);
        if bound - 1 <= usize::MAX && ids.contains((bound - 1) as usize) {
            below.push((bound - 1) as usize)
        } else {
            below
        }
    }
}

/// In a sequence of numbers that a `BTreeMap` hands out, each is below the next.
proof fn lemma_keys_increase(keys: Seq<usize>)
    requires
        vstd::std_specs::btree::increasing_seq(keys),
    ensures
        forall|i: int, j: int| 0 <= i < j < keys.len() ==> keys[i] < keys[j],
{
    broadcast use vstd::std_specs::btree::group_btree_axioms;

    assert forall|i: int, j: int| 0 <= i < j < keys.len() implies keys[i] < keys[j] by {
        assert(vstd::laws_cmp::obeys_cmp::<usize>());
        assert(vstd::std_specs::cmp::OrdSpec::cmp_spec(&keys[i], &keys[j]) is Less);
    }
}

/// An increasing sequence of the numbers of a set is what `ascending` gives.
proof fn lemma_ascending(keys: Seq<usize>, ids: Set<usize>, bound: nat, len: int)
    requires
        forall|i: int, j: int| 0 <= i < j < keys.len() ==> keys[i] < keys[j],
        forall|id: usize| keys.contains(id) == #[trigger] ids.contains(id),
        0 <= len <= keys.len(),
        forall|i: int| 0 <= i < keys.len() ==> (keys[i] < bound <==> i < len),
    ensures
        ascending(ids, bound) == keys.take(len),
    decreases bound,
{
    if bound == 0 {
        assert(len == 0) by {
            if len > 0 {
                assert(keys[0] < bound);
            }
        }
    } else {
        let top = bound - 1;
        if top <= usize::MAX && ids.contains(top as usize) {
            let k = choose|k: int| 0 <= k < keys.len() && keys[k] == top as usize;
            assert(keys.contains(top as usize));
            assert(k < len);
            assert(k == len - 1) by {
                if k < len - 1 {
                    assert(keys[k] < keys[len - 1]);
                }
            }
            lemma_ascending(keys, ids, top as nat, len - 1);
            assert(keys.take(len - 1).push(keys[k]) =~= keys.take(len));
        } else {
            assert forall|i: int| 0 <= i < keys.len() implies (keys[i] < top <==> i < len) by {
                assert(keys.contains(keys[i]));
            }
            lemma_ascending(keys, ids, top as nat, len);
        }
    }
}

/// `ascending` gives numbers of the set, all below the bound.
pub proof fn lemma_ascending_members(ids: Set<usize>, bound: nat)
    ensures
        forall|i: int|
            0 <= i < ascending(ids, bound).len() ==> ids.contains(#[trigger] ascending(ids, bound)[i])
                && ascending(ids, bound)[i] < bound,
    decreases bound,
{
    if bound > 0 {
        let below = ascending(ids, (bound - 1) as nat);
        lemma_ascending_members(ids, (bound - 1) as nat);
        assert forall|i: int| 0 <= i < ascending(ids, bound).len() implies ids.contains(
            #[trigger] ascending(ids, bound)[i],
        ) && ascending(ids, bound)[i] < bound by {
            if i < below.len() {
                assert(ascending(ids, bound)[i] == below[i]);
            }
        }
    }
}

impl Worker {
    /// A worker without jobs, for a shell with the given process group.
    pub fn new(shell_pgid: Pid) -> (r: Worker)
        ensures
            r@ == WorkerView::new(shell_pgid),
            r@.wf(),
            r@.settled(),
    {
        let r = Worker {
            exit_val: 0,
            fg: None,
            jobs: BTreeMap::new(),
            pgid_to_pids: HashMap::new(),
            pid_to_info: HashMap::new(),
            shell_pgid,
        };
        assert(r@ =~= WorkerView::new(shell_pgid));
        r
    }

    /// The last exit code.
    pub fn exit_val(&self) -> (r: i32)
        ensures
            r == self@.exit_val,
    {
        self.exit_val
    }

    /// The process group in the foreground; none where it is the shell's own.
    pub fn fg(&self) -> (r: Option<Pid>)
        ensures
            r == self@.fg,
    {
        self.fg
    }

    /// The shell's own process group.
    pub fn shell_pgid(&self) -> (r: Pid)
        ensures
            r == self@.shell_pgid,
    {
        self.shell_pgid
    }

    /// Notes an exit code.
    pub(crate) fn set_exit_val(&mut self, exit_val: i32)
        ensures
            final(self)@ == (WorkerView { exit_val, ..old(self)@ }),
    {
        self.exit_val = exit_val;
    }

    /// Notes which process group is in the foreground.
    pub(crate) fn set_fg(&mut self, fg: Option<Pid>)
        ensures
            final(self)@ == (WorkerView { fg, ..old(self)@ }),
    {
        self.fg = fg;
    }

    /// Whether there is no job.
    pub fn no_jobs(&self) -> (r: bool)
        ensures
            r == self@.jobs.is_empty(),
    {
        assert(self.jobs@.is_empty() == self@.jobs.is_empty()) by {
            if self@.jobs.is_empty() {
                assert(self.jobs@.dom() =~= self@.jobs.dom());
            }
            if self.jobs@.is_empty() {
                assert(self.jobs@.dom() =~= self@.jobs.dom());
            }
        }
        self.jobs.is_empty()
    }

    /// The process group and the command line of a job.
    pub fn job(&self, job_id: usize) -> (r: Option<(Pid, &str)>)
        ensures
            match r {
                Some((pgid, line)) => self@.jobs.contains_key(job_id) && self@.jobs[job_id] == (
                    pgid,
                    line@,
                ),
                None => !self@.jobs.contains_key(job_id),
            },
    {
        match self.jobs.get(&job_id) {
            Some(job) => Some((job.0, job.1.as_str())),
            None => None,
        }
    }

    /// Whether a process is known.
    pub fn knows(&self, pid: Pid) -> (r: bool)
        ensures
            r == self@.procs.contains_key(pid),
    {
        self.pid_to_info.contains_key(&pid)
    }

    /// Whether there is a process group with the given number.
    pub fn has_group(&self, pgid: Pid) -> (r: bool)
        ensures
            r == self@.groups.contains_key(pgid),
    {
        self.pgid_to_pids.contains_key(&pgid)
    }

    /// The job and the process group of a process; none where there is no such process.
    pub(crate) fn home_of(&self, pid: Pid) -> (r: Option<(usize, Pid)>)
        ensures
            r == self@.home(pid),
    {
        match self.pid_to_info.get(&pid) {
            Some(info) => match self.pgid_to_pids.get(&info.pgid) {
                Some(group) => Some((group.0, info.pgid)),
                None => None,
            },
            None => None,
        }
    }

    /// What is known of a process.
    pub fn info(&self, pid: Pid) -> (r: Option<ProcInfo>)
        ensures
            r == (if self@.procs.contains_key(pid) {
                Some(self@.procs[pid])
            } else {
                None
            }),
    {
        match self.pid_to_info.get(&pid) {
            Some(info) => Some(*info),
            None => None,
        }
    }

    /// The numbers of the jobs, in ascending order.
    pub fn job_ids(&self) -> (r: Vec<usize>)
        ensures
            r@ == ascending(self@.jobs.dom(), usize::MAX as nat + 1),
    {
        let mut ids: Vec<usize> = Vec::new();
        let jobs = self.jobs.iter();
        let ghost listed = vstd::std_specs::iter::IteratorSpec::remaining(&jobs);
        let ghost keys = listed.map_values(|job: (&usize, &(Pid, String))| *job.0);
        proof {
            lemma_keys_increase(keys);
            assert forall|id: usize| keys.contains(id) == #[trigger] self@.jobs.dom().contains(
                id,
            ) by {
                if self.jobs@.contains_key(id) {
                    let k = choose|k: int|
                        0 <= k < listed.len() && listed[k] == (&id, &self.jobs@[id]);
                    assert(keys[k] == id);
                }
                if keys.contains(id) {
                    let k = choose|k: int| 0 <= k < keys.len() && keys[k] == id;
                    assert(self.jobs@.contains_key(*listed[k].0));
                }
            }
            lemma_ascending(keys, self@.jobs.dom(), usize::MAX as nat + 1, keys.len() as int);
            assert(keys.take(keys.len() as int) =~= keys);
        }
        for job in it: jobs
            invariant
                keys == it.seq().map_values(|job: (&usize, &(Pid, String))| *job.0),
                ids@ == keys.take(it.index() as int),
        {
            ids.push(*job.0);
            assert(keys.take(it.index() as int).push(*job.0) =~= keys.take(it.index() + 1));
        }
        ids
    }

    /// Adds a job with its process group and its processes.
    pub fn insert_job(
        &mut self,
        job_id: usize,
        pgid: Pid,
        pids: HashMap<Pid, ProcInfo>,
        line: &str,
    )
        requires
            !old(self)@.jobs.contains_key(job_id),
            !old(self)@.groups.contains_key(pgid),
            pids@.dom().disjoint(old(self)@.procs.dom()),
        ensures
            final(self)@ == old(self)@.insert_job(job_id, pgid, pids@, line@),
    {
        self.jobs.insert(job_id, (pgid, line.to_owned()));
        let mut procs: HashSet<Pid> = HashSet::new();
        let ghost start = *self;
        let ghost before = self.pid_to_info@;
        for entry in it: pids.iter()
            invariant
                it.seq() == vstd::std_specs::iter::IteratorSpec::remaining(&pids.iter()),
                forall|pid: Pid| #[trigger]
                    procs@.contains(pid) <==> exists|k: int|
                        0 <= k < it.index() && *(#[trigger] it.seq()[k]).0 == pid,
                self.pid_to_info@ == before.union_prefer_right(pids@.restrict(procs@)),
                *self == (Worker { pid_to_info: self.pid_to_info, ..start }),
        {
            let ghost seen = procs@;
            procs.insert(*entry.0);
            self.pid_to_info.insert(*entry.0, *entry.1);
            proof {
                assert(pids@.contains_key(*it.seq()[it.index() as int].0));
                assert(it.seq()[it.index() as int] == entry);
                assert(procs@ =~= seen.insert(*entry.0));
                assert(self.pid_to_info@ =~= before.union_prefer_right(pids@.restrict(procs@)));
            }
        }
        proof {
            let all = vstd::std_specs::iter::IteratorSpec::remaining(&pids.iter());
            assert forall|pid: Pid| procs@.contains(pid) == #[trigger] pids@.dom().contains(pid) by {
                if pids@.contains_key(pid) {
                    assert(all.contains((&pid, &pids@[pid])));
                    let k = choose|k: int| 0 <= k < all.len() && all[k] == (&pid, &pids@[pid]);
                    assert(*all[k].0 == pid);
                }
                if procs@.contains(pid) {
                    let k = choose|k: int| 0 <= k < all.len() && *(#[trigger] all[k]).0 == pid;
                    assert(pids@.contains_key(*all[k].0));
                }
            }
            assert(procs@ =~= pids@.dom());
            assert(pids@.restrict(procs@) =~= pids@);
        }
        self.pgid_to_pids.insert(pgid, (job_id, procs));
        assert(self@ =~= old(self)@.insert_job(job_id, pgid, pids@, line@));
    }

    /// Changes the state of a process and returns the state that it had; none where there is
    /// no such process.
    pub fn set_pid_state(&mut self, pid: Pid, state: ProcState) -> (r: Option<ProcState>)
        ensures
            final(self)@ == old(self)@.set_pid_state(pid, state),
            r == (if old(self)@.procs.contains_key(pid) {
                Some(old(self)@.procs[pid].state)
            } else {
                None
            }),
    {
        let info = match self.pid_to_info.get(&pid) {
            Some(info) => *info,
            None => {
                return None;
            },
        };
        self.pid_to_info.insert(pid, ProcInfo { state, pgid: info.pgid });
        Some(info.state)
    }

    /// Takes a process out of the tables and returns its job and its process group; none
    /// where there is no such process.
    pub fn remove_pid(&mut self, pid: Pid) -> (r: Option<(usize, Pid)>)
        ensures
            final(self)@ == old(self)@.remove_pid(pid),
            r == old(self)@.home(pid),
    {
        let pgid = match self.pid_to_info.get(&pid) {
            Some(info) => info.pgid,
            None => {
                return None;
            },
        };
        let (job_id, mut pids) = match self.pgid_to_pids.remove(&pgid) {
            Some(group) => group,
            None => {
                assert(self.pgid_to_pids@ =~= old(self).pgid_to_pids@);
                return None;
            },
        };
        pids.remove(&pid);
        self.pgid_to_pids.insert(pgid, (job_id, pids));
        self.pid_to_info.remove(&pid);
        assert(self@ =~= old(self)@.remove_pid(pid));
        Some((job_id, pgid))
    }

    /// Takes a job out of the tables, together with its process group.
    pub fn remove_job(&mut self, job_id: usize)
        requires
            old(self)@.jobs.contains_key(job_id) && old(self)@.groups.contains_key(
                old(self)@.jobs[job_id].0,
            ) ==> old(self)@.groups[old(self)@.jobs[job_id].0].1.is_empty(),
        ensures
            final(self)@ == old(self)@.remove_job(job_id),
    {
        if let Some((pgid, _line)) = self.jobs.remove(&job_id) {
            self.pgid_to_pids.remove(&pgid);
            assert(self@ =~= old(self)@.remove_job(job_id));
        } else {
            assert(self.jobs@ =~= old(self).jobs@);
        }
    }

    /// Whether a process group has no process left.
    pub fn is_group_empty(&self, pgid: Pid) -> (r: bool)
        requires
            self@.groups.contains_key(pgid),
        ensures
            r == self@.groups[pgid].1.is_empty(),
    {
        match self.pgid_to_pids.get(&pgid) {
            Some(group) => group.1.is_empty(),
            None => false,
        }
    }

    /// Whether every process of a group is stopped; none where there is no such group.
    pub fn is_group_stop(&self, pgid: Pid) -> (r: Option<bool>)
        requires
            self@.group_known(pgid),
        ensures
            r == (if self@.groups.contains_key(pgid) {
                Some(self@.group_stopped(pgid))
            } else {
                None
            }),
    {
        let group = match self.pgid_to_pids.get(&pgid) {
            Some(group) => group,
            None => {
                return None;
            },
        };
        let ghost pids = group.1@;
        assert(pids == self@.groups[pgid].1);
        for pid in it: group.1.iter()
            invariant
                it.seq().unref().to_set() == pids,
                self@.groups.contains_key(pgid),
                pids == self@.groups[pgid].1,
                self@.group_known(pgid),
                forall|k: int|
                    0 <= k < it.index() ==> self@.procs[*(#[trigger] it.seq()[k])].state
                        == ProcState::Stop,
        {
            proof {
                assert(it.seq().unref()[it.index() as int] == *pid);
                assert(it.seq().unref().to_set().contains(*pid));
                assert(pids.contains(*pid));
            }
            match self.pid_to_info.get(pid) {
                Some(info) => {
                    if info.state == ProcState::Run {
                        assert(self@.procs[*pid].state == ProcState::Run);
                        return Some(false);
                    }
                },
                None => {
                    assert(false);
                },
            }
        }
        assert(self@.group_stopped(pgid)) by {
            let seen = vstd::std_specs::iter::IteratorSpec::remaining(&group.1.iter());
            assert forall|pid: Pid| #[trigger] pids.contains(pid) implies self@.procs[pid].state
                == ProcState::Stop by {
                assert(seen.unref().to_set().contains(pid));
                let k = choose|k: int| 0 <= k < seen.unref().len() && seen.unref()[k] == pid;
                assert(*seen[k] == pid);
            }
        }
        Some(true)
    }

    /// The number for a new job: the smallest that no job has; none where every number is
    /// taken.
    pub fn get_new_job_id(&self) -> (r: Option<usize>)
        ensures
            r == self@.new_job_id(),
            match r {
                Some(job_id) => self@.is_new_job_id(job_id),
                None => forall|job_id: usize| #[trigger] self@.jobs.contains_key(job_id),
            },
    {
        let mut job_id: usize = 0;
        loop
            invariant
                forall|other: usize| other < job_id ==> #[trigger] self@.jobs.contains_key(other),
            decreases usize::MAX - job_id,
        {
            if !self.jobs.contains_key(&job_id) {
                assert(self@.is_new_job_id(job_id));
                assert forall|other: usize| self@.is_new_job_id(other) implies other == job_id by {
                    if job_id < other {
                        assert(self@.jobs.contains_key(job_id));
                    } else if other < job_id {
                        assert(self@.jobs.contains_key(other));
                    }
                }
                return Some(job_id);
            }
            if job_id == usize::MAX {
                assert forall|id: usize| #[trigger] self@.jobs.contains_key(id) by {
                    if id == job_id {
                        assert(self.jobs@.contains_key(id));
                    }
                }
                return None;
            }
            job_id = job_id + 1;
        }
    }
}

} // verus!
