//! The table of live jobs.

use vstd::prelude::*;
use crate::job::{finished_spec, first_proc, Job, JobId, JobState, JobV};
use crate::jobspec::JobSpec;
use crate::status::{ChildEvent, ExitStatus};

verus! {

/// What a [`JobTable`] holds.
pub struct TableV {
    pub jobs: Seq<JobV>,
    /// The job `%%` refers to, and the one `fg` picks with no argument.
    pub current: Option<JobId>,
    /// The job `%-` refers to.
    pub previous: Option<JobId>,
}

pub open spec fn jobs_view(jobs: Seq<Job>) -> Seq<JobV> {
    jobs.map_values(|j: Job| j@)
}

pub proof fn lemma_jobs_view_push(jobs: Seq<Job>, j: Job)
    ensures
        jobs_view(jobs.push(j)) == jobs_view(jobs).push(j@),
{
    assert(jobs_view(jobs.push(j)) =~= jobs_view(jobs).push(j@));
}

/// Whether no job has number `n`.
pub open spec fn is_free(jobs: Seq<JobV>, n: int) -> bool {
    forall|i: int| 0 <= i < jobs.len() ==> (#[trigger] jobs[i]).id.0 != n
}

/// Whether `id` is the number a new job gets: the lowest one not in use.
pub open spec fn is_lowest_free(jobs: Seq<JobV>, id: JobId) -> bool {
    &&& id.0 >= 1
    &&& is_free(jobs, id.0 as int)
    &&& forall|m: int| 1 <= m < id.0 ==> !is_free(jobs, m)
}

/// No two jobs share a number.
pub open spec fn ids_distinct(jobs: Seq<JobV>) -> bool {
    forall|i: int, j: int| 0 <= i < j < jobs.len() ==> (#[trigger] jobs[i]).id != (#[trigger] jobs[j]).id
}

/// Make a job the current one, pushing the old current to previous.
pub open spec fn promote_spec(t: TableV, id: JobId) -> TableV {
    if t.current == Some(id) {
        t
    } else {
        TableV { jobs: t.jobs, current: Some(id), previous: t.current }
    }
}

/// The index of the first job with this number.
pub open spec fn index_of_id(jobs: Seq<JobV>, id: JobId, i: int) -> Option<int>
    decreases jobs.len() - i,
{
    if i < 0 || i >= jobs.len() {
        None
    } else if jobs[i].id == id {
        Some(i)
    } else {
        index_of_id(jobs, id, i + 1)
    }
}

/// The number a specifier names.
pub open spec fn resolve_spec(t: TableV, spec: JobSpec) -> Option<JobId> {
    match spec {
        JobSpec::Id(id) => Some(id),
        JobSpec::Current => t.current,
        JobSpec::Previous => t.previous,
    }
}

/// Where the job a specifier names is in the table.
pub open spec fn find_spec(t: TableV, spec: JobSpec) -> Option<int> {
    match resolve_spec(t, spec) {
        Some(id) => index_of_id(t.jobs, id, 0),
        None => None,
    }
}

/// The index of the first job with a process of this pid.
pub open spec fn job_with_pid(jobs: Seq<JobV>, pid: i32, i: int) -> Option<int>
    decreases jobs.len() - i,
{
    if i < 0 || i >= jobs.len() {
        None
    } else if first_proc(jobs[i].procs, pid, 0) is Some {
        Some(i)
    } else {
        job_with_pid(jobs, pid, i + 1)
    }
}

/// A job after one event about one of its processes. A stop or a resume
/// makes the job worth reporting again.
pub open spec fn event_spec(j: JobV, e: ChildEvent) -> JobV {
    match e {
        ChildEvent::Finished(pid, status) => finished_spec(j, pid, status),
        ChildEvent::Stopped(_, _) => JobV {
            state: if j.state is Done {
                j.state
            } else {
                JobState::Stopped
            },
            reported: false,
            ..j
        },
        ChildEvent::Continued(_) => JobV {
            state: if j.state is Done {
                j.state
            } else {
                JobState::Running
            },
            reported: false,
            ..j
        },
    }
}

/// The jobs after one event: it goes to the first job with that process,
/// and an event about a child nobody tracks changes nothing.
pub open spec fn apply_one(jobs: Seq<JobV>, e: ChildEvent) -> Seq<JobV> {
    let pid = match e {
        ChildEvent::Finished(p, _) => p,
        ChildEvent::Stopped(p, _) => p,
        ChildEvent::Continued(p) => p,
    };
    match job_with_pid(jobs, pid, 0) {
        Some(i) => jobs.update(i, event_spec(jobs[i], e)),
        None => jobs,
    }
}

/// The jobs after a batch of events, in order.
pub open spec fn apply_all(jobs: Seq<JobV>, events: Seq<ChildEvent>) -> Seq<JobV>
    decreases events.len(),
{
    if events.len() == 0 {
        jobs
    } else {
        apply_one(apply_all(jobs, events.drop_last()), events.last())
    }
}

/// A job is worth telling the user about once it has stopped or finished.
pub open spec fn interesting(j: JobV) -> bool {
    j.state is Done || j.state is Stopped
}

/// Whether a job is one `take_reportable` hands out.
pub open spec fn reportable(j: JobV) -> bool {
    interesting(j) && !j.reported
}

/// A job marked reported.
pub open spec fn marked(j: JobV) -> JobV {
    JobV { reported: true, ..j }
}

/// The jobs to report, in order, each marked reported.
pub open spec fn reportable_jobs(jobs: Seq<JobV>) -> Seq<JobV>
    decreases jobs.len(),
{
    if jobs.len() == 0 {
        seq![]
    } else {
        let rest = reportable_jobs(jobs.drop_last());
        if reportable(jobs.last()) {
            rest.push(marked(jobs.last()))
        } else {
            rest
        }
    }
}

/// The table's jobs after reporting: every reportable job marked.
pub open spec fn after_report(jobs: Seq<JobV>) -> Seq<JobV> {
    Seq::new(
        jobs.len(),
        |i: int|
            if reportable(jobs[i]) {
                marked(jobs[i])
            } else {
                jobs[i]
            },
    )
}

/// The jobs still alive, in order.
pub open spec fn alive_jobs(jobs: Seq<JobV>) -> Seq<JobV>
    decreases jobs.len(),
{
    if jobs.len() == 0 {
        seq![]
    } else {
        let rest = alive_jobs(jobs.drop_last());
        if jobs.last().state is Done {
            rest
        } else {
            rest.push(jobs.last())
        }
    }
}

/// A number kept only if some job still has it.
pub open spec fn still_there(jobs: Seq<JobV>, id: Option<JobId>) -> Option<JobId> {
    match id {
        Some(x) => if index_of_id(jobs, x, 0) is Some {
            Some(x)
        } else {
            None
        },
        None => None,
    }
}

/// The marker `jobs` prints after the number: `+` for current, `-` for
/// previous, a space otherwise.
pub open spec fn marker_spec(t: TableV, id: JobId) -> char {
    if t.current == Some(id) {
        '+'
    } else if t.previous == Some(id) {
        '-'
    } else {
        ' '
    }
}

/// The index found by a search is a job with that number, and no earlier
/// job has it.
pub proof fn lemma_index_of_id(jobs: Seq<JobV>, id: JobId, i: int)
    requires
        0 <= i,
    ensures
        index_of_id(jobs, id, i) matches Some(k) ==> i <= k < jobs.len() && jobs[k].id == id,
        index_of_id(jobs, id, i) is None ==> forall|k: int|
            i <= k < jobs.len() ==> (#[trigger] jobs[k]).id != id,
    decreases jobs.len() - i,
{
    if i < jobs.len() {
        lemma_index_of_id(jobs, id, i + 1);
    }
}

pub proof fn lemma_job_with_pid(jobs: Seq<JobV>, pid: i32, i: int)
    requires
        0 <= i,
    ensures
        job_with_pid(jobs, pid, i) matches Some(k) ==> i <= k < jobs.len(),
    decreases jobs.len() - i,
{
    if i < jobs.len() {
        lemma_job_with_pid(jobs, pid, i + 1);
    }
}

/// Among `n` jobs, some number from 1 to `n + 1` is free.
proof fn lemma_some_number_free(jobs: Seq<JobV>)
    ensures
        exists|m: int| 1 <= m <= jobs.len() + 1 && is_free(jobs, m),
{
    let ids = jobs.map_values(|j: JobV| j.id.0 as int);
    let range = vstd::set_lib::set_int_range(1, jobs.len() + 2int);
    if forall|m: int| 1 <= m <= jobs.len() + 1 ==> !is_free(jobs, m) {
        assert forall|m: int| range.contains(m) implies ids.to_set().contains(m) by {
            assert(!is_free(jobs, m));
            let i = choose|i: int| 0 <= i < jobs.len() && (#[trigger] jobs[i]).id.0 == m;
            assert(ids[i] == m);
        }
        vstd::set_lib::lemma_int_range(1, jobs.len() + 2int);
        vstd::seq_lib::seq_to_set_is_finite(ids);
        ids.lemma_cardinality_of_set();
        vstd::set_lib::lemma_len_subset(range, ids.to_set());
        assert(false);
    }
}

/// Adding a job under the lowest free number keeps numbers distinct.
pub proof fn lemma_add_keeps_distinct(jobs: Seq<JobV>, j: JobV)
    requires
        ids_distinct(jobs),
        is_free(jobs, j.id.0 as int),
    ensures
        ids_distinct(jobs.push(j)),
{
    let t = jobs.push(j);
    assert forall|a: int, b: int| 0 <= a < b < t.len() implies (#[trigger] t[a]).id != (
    #[trigger] t[b]).id by {
        if b == jobs.len() {
            assert(t[a] == jobs[a]);
        } else {
            assert(t[a] == jobs[a] && t[b] == jobs[b]);
        }
    }
}

/// A state change is reported once: right after the reportable jobs have
/// been taken, taking them again finds nothing.
pub proof fn law_reported_once(jobs: Seq<JobV>)
    ensures
        reportable_jobs(after_report(jobs)).len() == 0,
    decreases jobs.len(),
{
    if jobs.len() > 0 {
        let a = after_report(jobs);
        assert(a.drop_last() =~= after_report(jobs.drop_last()));
        law_reported_once(jobs.drop_last());
        assert(!reportable(a.last()));
    }
}

/// Events change what jobs know, never which jobs there are or their
/// numbers.
pub proof fn law_events_keep_numbers(jobs: Seq<JobV>, events: Seq<ChildEvent>)
    ensures
        apply_all(jobs, events).len() == jobs.len(),
        forall|i: int| 0 <= i < jobs.len() ==> (#[trigger] apply_all(jobs, events)[i]).id == jobs[i].id,
    decreases events.len(),
{
    if events.len() > 0 {
        law_events_keep_numbers(jobs, events.drop_last());
        let prev = apply_all(jobs, events.drop_last());
        let e = events.last();
        let pid = match e {
            ChildEvent::Finished(p, _) => p,
            ChildEvent::Stopped(p, _) => p,
            ChildEvent::Continued(p) => p,
        };
        lemma_job_with_pid(prev, pid, 0);
        assert(apply_all(jobs, events) == apply_one(prev, e));
        assert forall|i: int| 0 <= i < jobs.len() implies (#[trigger] apply_all(
            jobs,
            events,
        )[i]).id == jobs[i].id by {
            assert(prev[i].id == jobs[i].id);
        }
    }
}

/// Every job the table has tracked, and which are current and previous.
#[derive(Debug)]
pub struct JobTable {
    jobs: Vec<Job>,
    current: Option<JobId>,
    previous: Option<JobId>,
}

impl View for JobTable {
    type V = TableV;

    closed spec fn view(&self) -> TableV {
        TableV { jobs: jobs_view(self.jobs@), current: self.current, previous: self.previous }
    }
}

impl Default for JobTable {
    /// An empty table.
    fn default() -> (t: Self)
        ensures
            t@.jobs.len() == 0,
            t@.current is None,
            t@.previous is None,
    {
        JobTable { jobs: Vec::new(), current: None, previous: None }
    }
}

impl JobTable {
    /// An empty table.
    pub fn new() -> (t: Self)
        ensures
            t@.jobs.len() == 0,
            t@.current is None,
            t@.previous is None,
    {
        JobTable { jobs: Vec::new(), current: None, previous: None }
    }

    /// Whether anything is being tracked.
    pub fn is_empty(&self) -> (b: bool)
        ensures
            b == (self@.jobs.len() == 0),
    {
        self.jobs.len() == 0
    }

    /// How many jobs are tracked.
    pub fn len(&self) -> (n: usize)
        ensures
            n == self@.jobs.len(),
    {
        self.jobs.len()
    }

    /// Whether number `n` is in use.
    fn is_used(&self, n: usize) -> (b: bool)
        ensures
            b == !is_free(self@.jobs, n as int),
    {
        let mut i: usize = 0;
        while i < self.jobs.len()
            invariant
                i <= self.jobs@.len(),
                forall|k: int| 0 <= k < i ==> (#[trigger] self@.jobs[k]).id.0 != n,
            decreases self.jobs.len() - i,
        {
            if self.jobs[i].id().0 == n {
                assert(self@.jobs[i as int].id.0 == n);
                return true;
            }
            i = i + 1;
        }
        false
    }

    /// The lowest number not currently in use.
    ///
    /// Reusing numbers is what keeps `%1` and `%2` meaningful in a shell
    /// that has been open for hours.
    fn next_id(&self) -> (id: JobId)
        requires
            self@.jobs.len() < usize::MAX,
        ensures
            is_lowest_free(self@.jobs, id),
    {
        proof {
            lemma_some_number_free(self@.jobs);
        }
        let len = self.jobs.len();
        let mut n: usize = 1;
        while self.is_used(n)
            invariant
                1 <= n <= len + 1,
                len == self@.jobs.len(),
                len < usize::MAX,
                forall|m: int| 1 <= m < n ==> !is_free(self@.jobs, m),
                exists|m: int| 1 <= m <= len + 1 && is_free(self@.jobs, m),
            decreases len + 1 - n,
        {
            if n == len + 1 {
                proof {
                    let m = choose|m: int| 1 <= m <= len + 1 && is_free(self@.jobs, m);
                    assert(!is_free(self@.jobs, m));
                }
            }
            n = n + 1;
        }
        JobId(n)
    }

    /// Make a job the current one, pushing the old current to previous.
    fn promote(&mut self, id: JobId)
        ensures
            final(self)@ == promote_spec(old(self)@, id),
    {
        if self.current == Some(id) {
            return;
        }
        self.previous = self.current;
        self.current = Some(id);
    }

    /// Record a newly started pipeline under the lowest free number, and
    /// make it the current job.
    pub fn add(&mut self, pgid: i32, pids: Vec<i32>, command: String) -> (id: JobId)
        requires
            old(self)@.jobs.len() < usize::MAX,
        ensures
            is_lowest_free(old(self)@.jobs, id),
            final(self)@.jobs.len() == old(self)@.jobs.len() + 1,
            final(self)@.jobs.drop_last() == old(self)@.jobs,
            final(self)@.jobs.last().id == id,
            final(self)@.jobs.last().pgid == pgid,
            final(self)@.jobs.last().command == command@,
            final(self)@.jobs.last().state == JobState::Running,
            !final(self)@.jobs.last().reported,
            final(self)@.jobs.last().procs.len() == pids@.len(),
            forall|i: int|
                0 <= i < pids@.len() ==> #[trigger] final(self)@.jobs.last().procs[i] == (
                    pids@[i],
                    None::<ExitStatus>,
                ),
            final(self)@.current == promote_spec(old(self)@, id).current,
            final(self)@.previous == promote_spec(old(self)@, id).previous,
            ids_distinct(old(self)@.jobs) ==> ids_distinct(final(self)@.jobs),
    {
        let id = self.next_id();
        let job = Job::new(id, pgid, pids, command);
        proof {
            lemma_jobs_view_push(self.jobs@, job);
            if ids_distinct(self@.jobs) {
                lemma_add_keeps_distinct(self@.jobs, job@);
            }
        }
        self.jobs.push(job);
        assert(self@.jobs.drop_last() =~= old(self)@.jobs);
        self.promote(id);
        id
    }

    /// All jobs, in the order they were started.
    pub fn iter(&self) -> (it: std::slice::Iter<'_, Job>)
        ensures
            jobs_view(vstd::std_specs::slice::into_iter_elts(it)) == self@.jobs,
    {
        broadcast use vstd::std_specs::slice::axiom_spec_slice_iter;

        let it = self.jobs.iter();
        assert(vstd::std_specs::slice::into_iter_elts(it) =~= self.jobs@);
        it
    }

    /// The job at an index, in start order.
    pub fn get(&self, index: usize) -> (j: Option<&Job>)
        ensures
            j is Some == (index < self@.jobs.len()),
            j matches Some(job) ==> job@ == self@.jobs[index as int],
    {
        if index < self.jobs.len() {
            Some(&self.jobs[index])
        } else {
            None
        }
    }

    /// Where the job with this number is.
    fn index_of(&self, id: JobId) -> (r: Option<usize>)
        ensures
            r == match index_of_id(self@.jobs, id, 0) {
                Some(k) => Some(k as usize),
                None => None::<usize>,
            },
            r matches Some(k) ==> k < self@.jobs.len() && index_of_id(self@.jobs, id, 0) == Some(
                k as int,
            ),
            r is None ==> index_of_id(self@.jobs, id, 0) is None,
    {
        proof {
            lemma_index_of_id(self@.jobs, id, 0);
        }
        let mut i: usize = 0;
        while i < self.jobs.len()
            invariant
                i <= self.jobs@.len(),
                index_of_id(self@.jobs, id, 0) == index_of_id(self@.jobs, id, i as int),
            decreases self.jobs.len() - i,
        {
            if self.jobs[i].id() == id {
                return Some(i);
            }
            i = i + 1;
        }
        None
    }

    /// The number a specifier names.
    fn resolve(&self, spec: JobSpec) -> (r: Option<JobId>)
        ensures
            r == resolve_spec(self@, spec),
    {
        match spec {
            JobSpec::Id(id) => Some(id),
            JobSpec::Current => self.current,
            JobSpec::Previous => self.previous,
        }
    }

    /// Look up a job by specifier.
    pub fn find(&self, spec: JobSpec) -> (r: Option<&Job>)
        ensures
            r is Some == (find_spec(self@, spec) is Some),
            r matches Some(j) ==> j@ == self@.jobs[find_spec(self@, spec)->0] && j.saved_modes()
                == self.saved_modes(find_spec(self@, spec)->0),
    {
        match self.find_index(spec) {
            Some(i) => Some(&self.jobs[i]),
            None => None,
        }
    }

    /// Where the job a specifier names is in the table.
    pub fn find_index(&self, spec: JobSpec) -> (r: Option<usize>)
        ensures
            r == match find_spec(self@, spec) {
                Some(k) => Some(k as usize),
                None => None::<usize>,
            },
            r matches Some(k) ==> k < self@.jobs.len() && find_spec(self@, spec) == Some(k as int),
            r is None ==> find_spec(self@, spec) is None,
    {
        match self.resolve(spec) {
            Some(id) => {
                proof {
                    lemma_index_of_id(self@.jobs, id, 0);
                }
                self.index_of(id)
            },
            None => None,
        }
    }

    /// Change the job at `index`.
    fn update(&mut self, index: usize, job: Job)
        requires
            index < old(self)@.jobs.len(),
        ensures
            final(self).jobs@.len() == old(self).jobs@.len(),
            final(self).jobs@ == old(self).jobs@.update(index as int, job),
            final(self)@ == (TableV {
                jobs: old(self)@.jobs.update(index as int, job@),
                ..old(self)@
            }),
    {
        self.jobs.set(index, job);
        assert(jobs_view(self.jobs@) =~= old(self)@.jobs.update(index as int, job@));
    }

    /// Record that the job a specifier names was resumed in the
    /// foreground or background: running again, and already seen.
    pub fn resume(&mut self, spec: JobSpec)
        ensures
            match find_spec(old(self)@, spec) {
                Some(k) => final(self)@ == (TableV {
                    jobs: old(self)@.jobs.update(
                        k,
                        marked(
                            JobV {
                                state: if old(self)@.jobs[k].state is Done {
                                    old(self)@.jobs[k].state
                                } else {
                                    JobState::Running
                                },
                                ..old(self)@.jobs[k]
                            },
                        ),
                    ),
                    ..old(self)@
                }),
                None => final(self)@ == old(self)@,
            },
    {
        if let Some(i) = self.find_index(spec) {
            let mut job = self.jobs[i].copy();
            job.resumed();
            job.mark_reported();
            self.update(i, job);
        }
    }

    /// Record that the job a specifier names was suspended while the user
    /// watched it: stopped, and already seen.
    pub fn suspend(&mut self, spec: JobSpec)
        ensures
            match find_spec(old(self)@, spec) {
                Some(k) => final(self)@ == (TableV {
                    jobs: old(self)@.jobs.update(
                        k,
                        marked(
                            JobV {
                                state: if old(self)@.jobs[k].state is Done {
                                    old(self)@.jobs[k].state
                                } else {
                                    JobState::Stopped
                                },
                                ..old(self)@.jobs[k]
                            },
                        ),
                    ),
                    ..old(self)@
                }),
                None => final(self)@ == old(self)@,
            },
    {
        if let Some(i) = self.find_index(spec) {
            let mut job = self.jobs[i].copy();
            job.stopped();
            job.mark_reported();
            self.update(i, job);
        }
    }

    /// Record that the job a specifier names has been seen by the user.
    pub fn mark_reported(&mut self, spec: JobSpec)
        ensures
            match find_spec(old(self)@, spec) {
                Some(k) => final(self)@ == (TableV {
                    jobs: old(self)@.jobs.update(k, marked(old(self)@.jobs[k])),
                    ..old(self)@
                }),
                None => final(self)@ == old(self)@,
            },
    {
        if let Some(i) = self.find_index(spec) {
            let mut job = self.jobs[i].copy();
            job.mark_reported();
            self.update(i, job);
        }
    }

    /// The terminal modes saved for the job at index `k`.
    pub closed spec fn saved_modes(&self, k: int) -> Option<crate::job::Modes> {
        self.jobs@[k].saved_modes()
    }

    /// Remember the terminal modes of the job a specifier names.
    pub fn remember_modes(&mut self, spec: JobSpec, modes: Option<crate::job::Modes>)
        ensures
            match find_spec(old(self)@, spec) {
                Some(k) => final(self)@ == (TableV {
                    jobs: old(self)@.jobs.update(
                        k,
                        JobV { has_modes: modes is Some, ..old(self)@.jobs[k] },
                    ),
                    ..old(self)@
                }) && final(self).saved_modes(k) == modes,
                None => final(self)@ == old(self)@,
            },
    {
        if let Some(i) = self.find_index(spec) {
            let mut job = self.jobs[i].copy();
            job.remember_modes(modes);
            self.update(i, job);
        }
    }

    /// The index of the first job with a process of this pid.
    fn job_with(&self, pid: i32) -> (r: Option<usize>)
        ensures
            r == match job_with_pid(self@.jobs, pid, 0) {
                Some(k) => Some(k as usize),
                None => None::<usize>,
            },
            r matches Some(k) ==> k < self@.jobs.len() && job_with_pid(self@.jobs, pid, 0) == Some(
                k as int,
            ),
            r is None ==> job_with_pid(self@.jobs, pid, 0) is None,
    {
        proof {
            lemma_job_with_pid(self@.jobs, pid, 0);
        }
        let mut i: usize = 0;
        while i < self.jobs.len()
            invariant
                i <= self.jobs@.len(),
                job_with_pid(self@.jobs, pid, 0) == job_with_pid(self@.jobs, pid, i as int),
            decreases self.jobs.len() - i,
        {
            if self.jobs[i].contains(pid) {
                return Some(i);
            }
            i = i + 1;
        }
        None
    }

    /// Apply one child state change.
    fn apply_event(&mut self, event: ChildEvent)
        ensures
            final(self)@ == (TableV { jobs: apply_one(old(self)@.jobs, event), ..old(self)@ }),
    {
        let pid = event.pid();
        let i = match self.job_with(pid) {
            Some(i) => i,
            None => {
                // A child nobody is tracking. Ordinary: a foreground command
                // is waited for directly and never enters the table.
                return;
            },
        };
        let mut job = self.jobs[i].copy();
        match event {
            ChildEvent::Finished(_, status) => job.finished(pid, status),
            ChildEvent::Stopped(_, _) => {
                job.stopped();
                job.mark_unreported();
            },
            ChildEvent::Continued(_) => {
                job.resumed();
                job.mark_unreported();
            },
        }
        self.update(i, job);
    }

    /// Apply a batch of child state changes, in order.
    ///
    /// Events arrive per process, so a pipeline's job is updated several
    /// times and only becomes `Done` when its last stage reports.
    pub fn apply(&mut self, events: &[ChildEvent])
        ensures
            final(self)@ == (TableV { jobs: apply_all(old(self)@.jobs, events@), ..old(self)@ }),
    {
        let mut i: usize = 0;
        while i < events.len()
            invariant
                i <= events@.len(),
                self@ == (TableV {
                    jobs: apply_all(old(self)@.jobs, events@.take(i as int)),
                    ..old(self)@
                }),
            decreases events.len() - i,
        {
            assert(events@.take(i + 1).drop_last() =~= events@.take(i as int));
            self.apply_event(events[i]);
            i = i + 1;
        }
        assert(events@.take(i as int) =~= events@);
    }

    /// Jobs whose state the user has not been told about yet, in order.
    ///
    /// Marks them reported, so each change is announced once.
    pub fn take_reportable(&mut self) -> (v: Vec<Job>)
        ensures
            jobs_view(v@) == reportable_jobs(old(self)@.jobs),
            final(self)@ == (TableV { jobs: after_report(old(self)@.jobs), ..old(self)@ }),
    {
        let ghost js = old(self)@.jobs;
        let mut out: Vec<Job> = Vec::new();
        let mut i: usize = 0;
        while i < self.jobs.len()
            invariant
                i <= self.jobs@.len(),
                js.len() == self.jobs@.len(),
                self.current == old(self).current,
                self.previous == old(self).previous,
                forall|k: int| 0 <= k < i ==> #[trigger] self@.jobs[k] == after_report(js)[k],
                forall|k: int| i <= k < js.len() ==> #[trigger] self@.jobs[k] == js[k],
                jobs_view(out@) == reportable_jobs(js.take(i as int)),
            decreases self.jobs.len() - i,
        {
            assert(js.take(i + 1).drop_last() =~= js.take(i as int));
            assert(self@.jobs[i as int] == js[i as int]);
            let state = self.jobs[i].state();
            let interesting = match state {
                JobState::Done(_) | JobState::Stopped => true,
                JobState::Running => false,
            };
            if interesting && self.jobs[i].needs_report() {
                let mut job = self.jobs[i].copy();
                job.mark_reported();
                let copy = job.copy();
                self.update(i, job);
                proof {
                    lemma_jobs_view_push(out@, copy);
                }
                out.push(copy);
            }
            i = i + 1;
        }
        assert(js.take(i as int) =~= js);
        assert(self@.jobs =~= after_report(js));
        out
    }

    /// Forget every job that has finished, and any current or previous
    /// number that no longer names a job.
    pub fn forget_finished(&mut self)
        ensures
            final(self)@.jobs == alive_jobs(old(self)@.jobs),
            final(self)@.current == still_there(alive_jobs(old(self)@.jobs), old(self)@.current),
            final(self)@.previous == still_there(alive_jobs(old(self)@.jobs), old(self)@.previous),
    {
        let ghost js = old(self)@.jobs;
        let mut kept: Vec<Job> = Vec::new();
        let mut i: usize = 0;
        while i < self.jobs.len()
            invariant
                i <= self.jobs@.len(),
                self@ == old(self)@,
                js == self@.jobs,
                jobs_view(kept@) == alive_jobs(js.take(i as int)),
            decreases self.jobs.len() - i,
        {
            assert(js.take(i + 1).drop_last() =~= js.take(i as int));
            if self.jobs[i].state().is_alive() {
                let job = self.jobs[i].copy();
                proof {
                    lemma_jobs_view_push(kept@, job);
                }
                kept.push(job);
            }
            i = i + 1;
        }
        assert(js.take(i as int) =~= js);
        self.jobs = kept;
        // A number that no longer exists must not stay as `%%`, or `fg` would
        // report "no such job" for a shell that plainly has one.
        self.current = match self.current {
            Some(id) => match self.index_of(id) {
                Some(_) => Some(id),
                None => None,
            },
            None => None,
        };
        self.previous = match self.previous {
            Some(id) => match self.index_of(id) {
                Some(_) => Some(id),
                None => None,
            },
            None => None,
        };
    }

    /// Mark a job as the one `%%` refers to.
    pub fn make_current(&mut self, id: JobId)
        ensures
            final(self)@ == promote_spec(old(self)@, id),
    {
        self.promote(id);
    }

    /// The current job's number, if there is one.
    pub fn current(&self) -> (r: Option<JobId>)
        ensures
            r == self@.current,
    {
        self.current
    }

    /// The marker `jobs` prints after the number: `+` for current, `-` for
    /// previous.
    pub fn marker(&self, id: JobId) -> (c: char)
        ensures
            c == marker_spec(self@, id),
    {
        if self.current == Some(id) {
            '+'
        } else if self.previous == Some(id) {
            '-'
        } else {
            ' '
        }
    }

    /// Whether any job is stopped.
    pub fn has_stopped(&self) -> (b: bool)
        ensures
            b == exists|i: int|
                0 <= i < self@.jobs.len() && (#[trigger] self@.jobs[i]).state == JobState::Stopped,
    {
        let mut i: usize = 0;
        while i < self.jobs.len()
            invariant
                i <= self.jobs@.len(),
                forall|k: int| 0 <= k < i ==> (#[trigger] self@.jobs[k]).state != JobState::Stopped,
            decreases self.jobs.len() - i,
        {
            match self.jobs[i].state() {
                JobState::Stopped => {
                    assert(self@.jobs[i as int].state == JobState::Stopped);
                    return true;
                },
                _ => {},
            }
            i = i + 1;
        }
        false
    }

    /// Whether any job is still running or stopped.
    pub fn has_live(&self) -> (b: bool)
        ensures
            b == exists|i: int| 0 <= i < self@.jobs.len() && !((#[trigger] self@.jobs[i]).state is Done),
    {
        let mut i: usize = 0;
        while i < self.jobs.len()
            invariant
                i <= self.jobs@.len(),
                forall|k: int| 0 <= k < i ==> (#[trigger] self@.jobs[k]).state is Done,
            decreases self.jobs.len() - i,
        {
            if self.jobs[i].state().is_alive() {
                assert(!(self@.jobs[i as int].state is Done));
                return true;
            }
            i = i + 1;
        }
        false
    }
}

} // verus!
