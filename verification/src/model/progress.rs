//! Install progress: the job pipeline, each job's status, the install
//! log, and the transitions the install loop makes as jobs start, finish
//! or fail.
use vstd::prelude::*;

use crate::text::{extend_str, from_chars, str_eq};

verus! {

#[derive(Clone, Copy, Debug, PartialEq, Eq, Structural)]
pub enum JobStatus {
    Pending,
    Running,
    Done,
    Failed,
    Skipped,
}

/// One step of the install pipeline.
#[derive(Debug)]
pub struct InstallJob {
    pub id: &'static str,
    pub label_key: &'static str,
    pub status: JobStatus,
    pub detail: String,
}

impl InstallJob {
    pub fn new(id: &'static str, label_key: &'static str) -> (j: Self)
        ensures
            j.id == id,
            j.label_key == label_key,
            j.status == JobStatus::Pending,
            j.detail@ == Seq::<char>::empty(),
    {
        InstallJob { id, label_key, status: JobStatus::Pending, detail: String::new() }
    }
}

/// A job as the specifications see it.
pub struct JobView {
    pub id: Seq<char>,
    pub label: Seq<char>,
    pub status: JobStatus,
    pub detail: Seq<char>,
}

/// The progress state as the specifications see it.
pub struct ProgressView {
    pub jobs: Seq<JobView>,
    pub log: Seq<char>,
    pub steps: nat,
    pub failed: bool,
    pub finished: bool,
}

/// Progress of one install run. The completed fraction is
/// `steps_done / jobs.len()`, or 1 once `finished`.
#[derive(Debug)]
pub struct ProgressState {
    pub jobs: Vec<InstallJob>,
    pub log: String,
    pub steps_done: usize,
    pub failed: bool,
    pub finished: bool,
}

pub open spec fn job_view(j: InstallJob) -> JobView {
    JobView { id: j.id@, label: j.label_key@, status: j.status, detail: j.detail@ }
}

impl View for ProgressState {
    type V = ProgressView;

    open spec fn view(&self) -> ProgressView {
        ProgressView {
            jobs: Seq::new(self.jobs@.len(), |i: int| job_view(self.jobs@[i])),
            log: self.log@,
            steps: self.steps_done as nat,
            failed: self.failed,
            finished: self.finished,
        }
    }
}

/// The job ids of the install pipeline, in order.
pub open spec fn pipeline_ids() -> Seq<Seq<char>> {
    seq![
        "preflight"@,
        "partition"@,
        "format"@,
        "mount"@,
        "seed"@,
        "deploy"@,
        "user"@,
        "quantra"@,
        "limine"@,
        "sync"@,
    ]
}

/// The log after appending `line`: lines are separated by one `\n`.
pub open spec fn append_log_spec(log: Seq<char>, line: Seq<char>) -> Seq<char> {
    if log.len() == 0 {
        line
    } else {
        log + "\n"@ + line
    }
}

/// Index of the first job with id `id`, or `jobs.len()`.
pub open spec fn first_with_id(jobs: Seq<JobView>, id: Seq<char>) -> int
    decreases jobs.len(),
{
    if jobs.len() == 0 {
        0
    } else if jobs[0].id == id {
        0
    } else {
        1 + first_with_id(jobs.drop_first(), id)
    }
}

pub open spec fn with_status(j: JobView, st: JobStatus) -> JobView {
    JobView { id: j.id, label: j.label, status: st, detail: j.detail }
}

pub open spec fn with_result(j: JobView, st: JobStatus, detail: Seq<char>) -> JobView {
    JobView { id: j.id, label: j.label, status: st, detail }
}

/// Job `i` starts: the first job carrying its id is marked running.
pub open spec fn begin_spec(v: ProgressView, i: int) -> ProgressView {
    let k = first_with_id(v.jobs, v.jobs[i].id);
    ProgressView {
        jobs: v.jobs.update(k, with_status(v.jobs[k], JobStatus::Running)),
        log: v.log,
        steps: i as nat,
        failed: v.failed,
        finished: v.finished,
    }
}

/// Job `i` succeeded with `detail`.
pub open spec fn end_ok_spec(v: ProgressView, i: int, detail: Seq<char>) -> ProgressView {
    let k = first_with_id(v.jobs, v.jobs[i].id);
    ProgressView {
        jobs: v.jobs.update(k, with_result(v.jobs[k], JobStatus::Done, detail)),
        log: v.log,
        steps: (i + 1) as nat,
        failed: v.failed,
        finished: v.finished,
    }
}

/// Job `i` failed with `err`: the run is marked failed and the failure logged.
pub open spec fn end_err_spec(v: ProgressView, i: int, err: Seq<char>) -> ProgressView {
    let k = first_with_id(v.jobs, v.jobs[i].id);
    ProgressView {
        jobs: v.jobs.update(k, with_result(v.jobs[k], JobStatus::Failed, err)),
        log: append_log_spec(v.log, "FAIL "@ + v.jobs[i].id + ": "@ + err),
        steps: v.steps,
        failed: true,
        finished: v.finished,
    }
}

/// Every job has succeeded: the run is finished and says so in the log.
pub open spec fn finish_spec(v: ProgressView) -> ProgressView {
    ProgressView {
        jobs: v.jobs,
        log: append_log_spec(v.log, "Install finished successfully"@),
        steps: v.jobs.len(),
        failed: v.failed,
        finished: true,
    }
}

pub open spec fn distinct_ids(jobs: Seq<JobView>) -> bool {
    forall|a: int, b: int| 0 <= a < b < jobs.len() ==> jobs[a].id != jobs[b].id
}

/// The state after jobs `0..n` all started and succeeded, in order.
pub open spec fn run_all_ok(v: ProgressView, details: Seq<Seq<char>>, n: nat) -> ProgressView
    decreases n,
{
    if n == 0 {
        v
    } else {
        let prev = run_all_ok(v, details, (n - 1) as nat);
        end_ok_spec(begin_spec(prev, n - 1), n - 1, details[n - 1])
    }
}

/// With distinct ids, a job's id leads back to the job itself.
pub proof fn lemma_first_with_id_distinct(jobs: Seq<JobView>, i: int)
    requires
        distinct_ids(jobs),
        0 <= i < jobs.len(),
    ensures
        first_with_id(jobs, jobs[i].id) == i,
    decreases jobs.len(),
{
    if i > 0 {
        assert(jobs[0].id != jobs[i].id);
        assert(distinct_ids(jobs.drop_first())) by {
            assert forall|a: int, b: int|
                0 <= a < b < jobs.drop_first().len() implies jobs.drop_first()[a].id
                != jobs.drop_first()[b].id by {
                assert(jobs.drop_first()[a] == jobs[a + 1]);
                assert(jobs.drop_first()[b] == jobs[b + 1]);
            }
        }
        lemma_first_with_id_distinct(jobs.drop_first(), i - 1);
    }
}

/// A run in which every job succeeds, in order, leaves each job done with
/// its own detail, keeps every job's id, and has counted every step.
pub proof fn lemma_successful_run_marks_every_job_done(
    v: ProgressView,
    details: Seq<Seq<char>>,
    n: nat,
)
    requires
        distinct_ids(v.jobs),
        details.len() == v.jobs.len(),
        n <= v.jobs.len(),
    ensures
        run_all_ok(v, details, n).jobs.len() == v.jobs.len(),
        run_all_ok(v, details, n).log == v.log,
        run_all_ok(v, details, n).failed == v.failed,
        n > 0 ==> run_all_ok(v, details, n).steps == n,
        forall|i: int|
            0 <= i < v.jobs.len() ==> #[trigger] run_all_ok(v, details, n).jobs[i].id
                == v.jobs[i].id,
        forall|i: int|
            0 <= i < n ==> (#[trigger] run_all_ok(v, details, n).jobs[i]).status
                == JobStatus::Done && run_all_ok(v, details, n).jobs[i].detail == details[i],
        forall|i: int|
            n <= i < v.jobs.len() ==> #[trigger] run_all_ok(v, details, n).jobs[i] == v.jobs[i],
    decreases n,
{
    if n > 0 {
        let m = (n - 1) as nat;
        lemma_successful_run_marks_every_job_done(v, details, m);
        let prev = run_all_ok(v, details, m);
        assert(distinct_ids(prev.jobs)) by {
            assert forall|a: int, b: int| 0 <= a < b < prev.jobs.len() implies prev.jobs[a].id
                != prev.jobs[b].id by {
                assert(prev.jobs[a].id == v.jobs[a].id);
                assert(prev.jobs[b].id == v.jobs[b].id);
            }
        }
        lemma_first_with_id_distinct(prev.jobs, m as int);
        let b = begin_spec(prev, m as int);
        assert(b.jobs[m as int].id == prev.jobs[m as int].id);
        assert(distinct_ids(b.jobs)) by {
            assert forall|a: int, c: int| 0 <= a < c < b.jobs.len() implies b.jobs[a].id
                != b.jobs[c].id by {
                assert(b.jobs[a].id == prev.jobs[a].id);
                assert(b.jobs[c].id == prev.jobs[c].id);
            }
        }
        lemma_first_with_id_distinct(b.jobs, m as int);
    }
}

/// The pipeline's job ids are distinct.
pub proof fn lemma_pipeline_ids_distinct()
    ensures
        forall|a: int, b: int|
            0 <= a < b < pipeline_ids().len() ==> pipeline_ids()[a] != pipeline_ids()[b],
{
    reveal_strlit("preflight");
    reveal_strlit("partition");
    reveal_strlit("format");
    reveal_strlit("mount");
    reveal_strlit("seed");
    reveal_strlit("deploy");
    reveal_strlit("user");
    reveal_strlit("quantra");
    reveal_strlit("limine");
    reveal_strlit("sync");
    assert("preflight"@[1] != "partition"@[1]);
    assert("format"@[0] != "deploy"@[0]);
    assert("seed"@[1] != "user"@[1]);
    assert("seed"@[1] != "sync"@[1]);
    assert("user"@[0] != "sync"@[0]);
    assert("quantra"@[0] != "limine"@[0]);
}

/// Every job of the pipeline is one the install loop dispatches.
pub proof fn lemma_pipeline_ids_dispatch()
    ensures
        forall|i: int|
            0 <= i < pipeline_ids().len() ==> job_kind_spec(#[trigger] pipeline_ids()[i]) is Some,
{
    assert forall|i: int| 0 <= i < pipeline_ids().len() implies job_kind_spec(
        #[trigger] pipeline_ids()[i],
    ) is Some by {
        if i == 0 {
        } else if i == 1 {
        } else if i == 2 {
        } else if i == 3 {
        } else if i == 4 {
        } else if i == 5 {
        } else if i == 6 {
        } else if i == 7 {
        } else if i == 8 {
        } else {
        }
    }
}

/// On the install pipeline, a run in which every job succeeds dispatches
/// every job, marks each one done with its detail, and finishes with
/// `Install finished successfully` logged.
pub proof fn lemma_pipeline_run_succeeds(v: ProgressView, details: Seq<Seq<char>>)
    requires
        v.jobs.len() == pipeline_ids().len(),
        forall|i: int| 0 <= i < v.jobs.len() ==> (#[trigger] v.jobs[i]).id == pipeline_ids()[i],
        details.len() == v.jobs.len(),
    ensures
        forall|i: int| 0 <= i < v.jobs.len() ==> job_kind_spec(#[trigger] v.jobs[i].id) is Some,
        ({
            let end = finish_spec(run_all_ok(v, details, v.jobs.len()));
            &&& end.finished
            &&& end.failed == v.failed
            &&& end.steps == v.jobs.len()
            &&& end.log == append_log_spec(v.log, "Install finished successfully"@)
            &&& forall|i: int|
                0 <= i < v.jobs.len() ==> (#[trigger] end.jobs[i]).status == JobStatus::Done
                    && end.jobs[i].detail == details[i] && end.jobs[i].id == v.jobs[i].id
        }),
{
    lemma_pipeline_ids_dispatch();
    lemma_pipeline_ids_distinct();
    assert forall|a: int, b: int| 0 <= a < b < v.jobs.len() implies v.jobs[a].id
        != v.jobs[b].id by {
        assert(v.jobs[a].id == pipeline_ids()[a]);
        assert(v.jobs[b].id == pipeline_ids()[b]);
    }
    assert forall|i: int| 0 <= i < v.jobs.len() implies job_kind_spec(#[trigger] v.jobs[i].id)
        is Some by {
        assert(v.jobs[i].id == pipeline_ids()[i]);
    }
    lemma_successful_run_marks_every_job_done(v, details, v.jobs.len());
}

/// The job an id names, as the install loop dispatches it.
#[derive(Clone, Copy, Debug, PartialEq, Eq, Structural)]
pub enum JobKind {
    Preflight,
    Partition,
    Format,
    Mount,
    Seed,
    Deploy,
    User,
    Quantra,
    Limine,
    Sync,
}

pub open spec fn job_kind_spec(id: Seq<char>) -> Option<JobKind> {
    if id == "preflight"@ {
        Some(JobKind::Preflight)
    } else if id == "partition"@ {
        Some(JobKind::Partition)
    } else if id == "format"@ {
        Some(JobKind::Format)
    } else if id == "mount"@ {
        Some(JobKind::Mount)
    } else if id == "seed"@ {
        Some(JobKind::Seed)
    } else if id == "deploy"@ {
        Some(JobKind::Deploy)
    } else if id == "user"@ {
        Some(JobKind::User)
    } else if id == "quantra"@ {
        Some(JobKind::Quantra)
    } else if id == "limine"@ {
        Some(JobKind::Limine)
    } else if id == "sync"@ {
        Some(JobKind::Sync)
    } else {
        None
    }
}

/// The job that runs for `id`; `None` for an id no job answers to.
pub fn job_kind(id: &str) -> (r: Option<JobKind>)
    ensures
        r == job_kind_spec(id@),
{
    if str_eq(id, "preflight") {
        Some(JobKind::Preflight)
    } else if str_eq(id, "partition") {
        Some(JobKind::Partition)
    } else if str_eq(id, "format") {
        Some(JobKind::Format)
    } else if str_eq(id, "mount") {
        Some(JobKind::Mount)
    } else if str_eq(id, "seed") {
        Some(JobKind::Seed)
    } else if str_eq(id, "deploy") {
        Some(JobKind::Deploy)
    } else if str_eq(id, "user") {
        Some(JobKind::User)
    } else if str_eq(id, "quantra") {
        Some(JobKind::Quantra)
    } else if str_eq(id, "limine") {
        Some(JobKind::Limine)
    } else if str_eq(id, "sync") {
        Some(JobKind::Sync)
    } else {
        None
    }
}

/// The error for an id no job answers to.
pub fn unknown_job_error(id: &str) -> (e: String)
    ensures
        e@ == "unknown job "@ + id@,
{
    let mut v: Vec<char> = Vec::new();
    extend_str(&mut v, "unknown job ");
    extend_str(&mut v, id);
    from_chars(&v)
}

/// The mark a progress line shows for a status.
pub open spec fn status_mark_spec(s: JobStatus) -> Seq<char> {
    match s {
        JobStatus::Running => "…"@,
        JobStatus::Done => "✓"@,
        JobStatus::Failed => "✗"@,
        JobStatus::Skipped => "–"@,
        JobStatus::Pending => " "@,
    }
}

pub fn status_mark(s: JobStatus) -> (r: &'static str)
    ensures
        r@ == status_mark_spec(s),
{
    match s {
        JobStatus::Running => "…",
        JobStatus::Done => "✓",
        JobStatus::Failed => "✗",
        JobStatus::Skipped => "–",
        JobStatus::Pending => " ",
    }
}

/// `s` left-aligned in a field of `w` characters (`{:<w}`).
pub open spec fn pad_right(s: Seq<char>, w: nat) -> Seq<char> {
    if s.len() >= w {
        s
    } else {
        s + Seq::new((w - s.len()) as nat, |i: int| ' ')
    }
}

/// A progress line: `"{mark} {id:<10} {detail}"`.
pub open spec fn job_line_spec(j: InstallJob) -> Seq<char> {
    status_mark_spec(j.status) + " "@ + pad_right(j.id@, 10) + " "@ + j.detail@
}

/// The progress line printed for `job`.
pub fn job_line(job: &InstallJob) -> (r: String)
    ensures
        r@ == job_line_spec(*job),
{
    let mut v: Vec<char> = Vec::new();
    extend_str(&mut v, status_mark(job.status));
    extend_str(&mut v, " ");
    let ghost before = v@;
    let id = crate::text::to_chars(job.id);
    crate::text::extend_chars(&mut v, &id);
    let mut n = id.len();
    while n < 10
        invariant
            id@ == job.id@,
            id@.len() <= n <= 10 || (n == id@.len() && n >= 10),
            v@ == before + id@ + Seq::new((n - id@.len()) as nat, |i: int| ' '),
        decreases 10 - n,
    {
        v.push(' ');
        n += 1;
        assert(v@ =~= before + id@ + Seq::new((n - id@.len()) as nat, |i: int| ' '));
    }
    assert(v@ =~= before + pad_right(job.id@, 10));
    extend_str(&mut v, " ");
    extend_str(&mut v, job.detail.as_str());
    assert(v@ =~= job_line_spec(*job));
    from_chars(&v)
}

fn pipeline_job(id: &'static str, label_key: &'static str) -> (j: InstallJob)
    ensures
        j.id == id,
        j.label_key == label_key,
        j.status == JobStatus::Pending,
        j.detail@ == Seq::<char>::empty(),
{
    InstallJob::new(id, label_key)
}

impl ProgressState {
    /// The install pipeline, every job pending and nothing logged yet.
    pub fn pipeline() -> (p: Self)
        ensures
            p@.jobs.len() == 10,
            forall|i: int|
                0 <= i < 10 ==> (#[trigger] p@.jobs[i]).id == pipeline_ids()[i] && p@.jobs[i].label
                    == "job-"@ + pipeline_ids()[i] && p@.jobs[i].status == JobStatus::Pending
                    && p@.jobs[i].detail.len() == 0,
            forall|i: int| 0 <= i < 10 ==> job_kind_spec(#[trigger] p@.jobs[i].id) is Some,
            distinct_ids(p@.jobs),
            p@.log.len() == 0,
            p@.steps == 0,
            !p@.failed,
            !p@.finished,
    {
        let mut jobs: Vec<InstallJob> = Vec::new();
        jobs.push(pipeline_job("preflight", "job-preflight"));
        jobs.push(pipeline_job("partition", "job-partition"));
        jobs.push(pipeline_job("format", "job-format"));
        jobs.push(pipeline_job("mount", "job-mount"));
        jobs.push(pipeline_job("seed", "job-seed"));
        jobs.push(pipeline_job("deploy", "job-deploy"));
        jobs.push(pipeline_job("user", "job-user"));
        jobs.push(pipeline_job("quantra", "job-quantra"));
        jobs.push(pipeline_job("limine", "job-limine"));
        jobs.push(pipeline_job("sync", "job-sync"));
        let p = ProgressState {
            jobs,
            log: String::new(),
            steps_done: 0,
            failed: false,
            finished: false,
        };
        proof {
            reveal_strlit("preflight");
            reveal_strlit("partition");
            reveal_strlit("format");
            reveal_strlit("mount");
            reveal_strlit("seed");
            reveal_strlit("deploy");
            reveal_strlit("user");
            reveal_strlit("quantra");
            reveal_strlit("limine");
            reveal_strlit("sync");
            reveal_strlit("job-preflight");
            reveal_strlit("job-partition");
            reveal_strlit("job-format");
            reveal_strlit("job-mount");
            reveal_strlit("job-seed");
            reveal_strlit("job-deploy");
            reveal_strlit("job-user");
            reveal_strlit("job-quantra");
            reveal_strlit("job-limine");
            reveal_strlit("job-sync");
            reveal_strlit("job-");
            assert("job-preflight"@ =~= "job-"@ + "preflight"@);
            assert("job-partition"@ =~= "job-"@ + "partition"@);
            assert("job-format"@ =~= "job-"@ + "format"@);
            assert("job-mount"@ =~= "job-"@ + "mount"@);
            assert("job-seed"@ =~= "job-"@ + "seed"@);
            assert("job-deploy"@ =~= "job-"@ + "deploy"@);
            assert("job-user"@ =~= "job-"@ + "user"@);
            assert("job-quantra"@ =~= "job-"@ + "quantra"@);
            assert("job-limine"@ =~= "job-"@ + "limine"@);
            lemma_pipeline_ids_dispatch();
            lemma_pipeline_ids_distinct();
            assert forall|a: int, b: int| 0 <= a < b < p@.jobs.len() implies p@.jobs[a].id
                != p@.jobs[b].id by {
                assert(p@.jobs[a].id == pipeline_ids()[a]);
                assert(p@.jobs[b].id == pipeline_ids()[b]);
            }
            assert("job-sync"@ =~= "job-"@ + "sync"@);
        }
        p
    }

    /// Appends a line to the install log, one `\n` between lines.
    pub fn append_log(&mut self, line: &str)
        ensures
            final(self)@.log == append_log_spec(old(self)@.log, line@),
            final(self).jobs == old(self).jobs,
            final(self).steps_done == old(self).steps_done,
            final(self).failed == old(self).failed,
            final(self).finished == old(self).finished,
    {
        if !self.log.as_str().is_empty() {
            self.log.append("\n");
        }
        self.log.append(line);
    }

    fn first_with_id_exec(&self, id: &str) -> (k: usize)
        ensures
            k == first_with_id(self@.jobs, id@),
            k <= self.jobs@.len(),
    {
        let mut k: usize = 0;
        assert(self@.jobs.skip(0) == self@.jobs);
        while k < self.jobs.len()
            invariant
                k <= self.jobs@.len(),
                first_with_id(self@.jobs, id@) == k + first_with_id(self@.jobs.skip(k as int), id@),
            decreases self.jobs.len() - k,
        {
            assert(self@.jobs.skip(k as int)[0] == self@.jobs[k as int]);
            if str_eq(self.jobs[k].id, id) {
                return k;
            }
            assert(self@.jobs.skip(k as int).drop_first() == self@.jobs.skip(k + 1));
            k += 1;
        }
        k
    }

    fn set_job(&mut self, k: usize, status: JobStatus, detail: Option<String>)
        requires
            k < old(self).jobs@.len(),
        ensures
            final(self)@.jobs == old(self)@.jobs.update(
                k as int,
                match detail {
                    Some(d) => with_result(old(self)@.jobs[k as int], status, d@),
                    None => with_status(old(self)@.jobs[k as int], status),
                },
            ),
            final(self).log == old(self).log,
            final(self).steps_done == old(self).steps_done,
            final(self).failed == old(self).failed,
            final(self).finished == old(self).finished,
    {
        let id = self.jobs[k].id;
        let label_key = self.jobs[k].label_key;
        let d = match detail {
            Some(d) => d,
            None => self.jobs[k].detail.clone(),
        };
        self.jobs.set(k, InstallJob { id, label_key, status, detail: d });
        assert(self@.jobs =~= old(self)@.jobs.update(
            k as int,
            match detail {
                Some(d) => with_result(old(self)@.jobs[k as int], status, d@),
                None => with_status(old(self)@.jobs[k as int], status),
            },
        ));
    }

    /// Job `i` starts running.
    pub fn begin_job(&mut self, i: usize)
        requires
            i < old(self).jobs@.len(),
        ensures
            final(self)@ == begin_spec(old(self)@, i as int),
    {
        let id = self.jobs[i].id;
        let k = self.first_with_id_exec(id);
        proof {
            lemma_first_with_id_found(self@.jobs, i as int);
        }
        self.set_job(k, JobStatus::Running, None);
        self.steps_done = i;
        assert(self@.jobs =~= begin_spec(old(self)@, i as int).jobs);
    }

    /// Job `i` ended with `result`. A failure marks the run failed, logs
    /// `FAIL {id}: {err}`, and is handed back so the caller stops.
    pub fn end_job(&mut self, i: usize, result: Result<String, String>) -> (r: Result<(), String>)
        requires
            i < old(self).jobs@.len(),
        ensures
            match result {
                Ok(d) => final(self)@ == end_ok_spec(old(self)@, i as int, d@) && r is Ok,
                Err(e) => final(self)@ == end_err_spec(old(self)@, i as int, e@) && (r matches Err(
                    e2,
                ) && e2@ == e@),
            },
    {
        let n = self.jobs.len();
        let id = self.jobs[i].id;
        let k = self.first_with_id_exec(id);
        proof {
            lemma_first_with_id_found(self@.jobs, i as int);
        }
        match result {
            Ok(detail) => {
                self.set_job(k, JobStatus::Done, Some(detail));
                self.steps_done = i + 1;
                assert(self@.jobs =~= end_ok_spec(old(self)@, i as int, detail@).jobs);
                Ok(())
            },
            Err(err) => {
                let e2 = err.clone();
                self.set_job(k, JobStatus::Failed, Some(err));
                self.failed = true;
                let mut line: Vec<char> = Vec::new();
                extend_str(&mut line, "FAIL ");
                extend_str(&mut line, id);
                extend_str(&mut line, ": ");
                extend_str(&mut line, e2.as_str());
                let line_s = from_chars(&line);
                self.append_log(line_s.as_str());
                assert(self@.jobs =~= end_err_spec(old(self)@, i as int, e2@).jobs);
                assert(self@.log =~= end_err_spec(old(self)@, i as int, e2@).log);
                Err(e2)
            },
        }
    }

    /// Every job succeeded: the run is finished.
    pub fn finish(&mut self)
        ensures
            final(self)@ == finish_spec(old(self)@),
    {
        self.finished = true;
        self.steps_done = self.jobs.len();
        self.append_log("Install finished successfully");
    }

    /// The most recent job that has left `Pending`, for the progress line.
    pub fn last_active_job(&self) -> (r: Option<usize>)
        ensures
            r matches Some(k) ==> k < self.jobs@.len() && self.jobs@[k as int].status
                != JobStatus::Pending && forall|j: int|
                k < j < self.jobs@.len() ==> self.jobs@[j].status == JobStatus::Pending,
            r is None ==> forall|j: int|
                0 <= j < self.jobs@.len() ==> self.jobs@[j].status == JobStatus::Pending,
    {
        let mut k = self.jobs.len();
        while k > 0
            invariant
                k <= self.jobs@.len(),
                forall|j: int| k <= j < self.jobs@.len() ==> self.jobs@[j].status
                    == JobStatus::Pending,
            decreases k,
        {
            if self.jobs[k - 1].status != JobStatus::Pending {
                return Some(k - 1);
            }
            k -= 1;
        }
        None
    }
}

/// The job that carries job `i`'s id first is at or before `i`.
pub proof fn lemma_first_with_id_found(jobs: Seq<JobView>, i: int)
    requires
        0 <= i < jobs.len(),
    ensures
        0 <= first_with_id(jobs, jobs[i].id) <= i,
        jobs[first_with_id(jobs, jobs[i].id)].id == jobs[i].id,
    decreases jobs.len(),
{
    if i > 0 && jobs[0].id != jobs[i].id {
        lemma_first_with_id_found(jobs.drop_first(), i - 1);
    }
}

/// Joining lines with `\n`, as the install log is built.
pub open spec fn joined_log(lines: Seq<Seq<char>>) -> Seq<char>
    decreases lines.len(),
{
    if lines.len() == 0 {
        Seq::empty()
    } else {
        append_log_spec(joined_log(lines.drop_last()), lines.last())
    }
}

/// Appending lines one by one to an empty log yields the lines joined by
/// `\n`, provided the first line is not empty (an empty first line leaves
/// the log empty, so the next line gets no separator).
pub proof fn lemma_log_is_lines_joined(lines: Seq<Seq<char>>)
    requires
        lines.len() > 0 ==> lines[0].len() > 0,
    ensures
        lines.len() > 0 ==> joined_log(lines) == lines[0] + joined_tail(lines.drop_first()),
    decreases lines.len(),
{
    if lines.len() > 1 {
        lemma_log_is_lines_joined(lines.drop_last());
        assert(lines.drop_last()[0] == lines[0]);
        assert(lines.drop_last().drop_first() == lines.drop_first().drop_last());
        lemma_joined_nonempty(lines.drop_last());
    } else if lines.len() == 1 {
        assert(lines.drop_last().len() == 0);
        assert(lines.drop_first().len() == 0);
        assert(joined_log(lines.drop_last()) == Seq::<char>::empty());
        assert(lines.last() == lines[0]);
        assert(joined_tail(lines.drop_first()) == Seq::<char>::empty());
        assert(joined_log(lines) =~= lines[0] + joined_tail(lines.drop_first()));
    }
}

/// `"\n" + l` for every line, concatenated.
pub open spec fn joined_tail(lines: Seq<Seq<char>>) -> Seq<char>
    decreases lines.len(),
{
    if lines.len() == 0 {
        Seq::empty()
    } else {
        joined_tail(lines.drop_last()) + "\n"@ + lines.last()
    }
}

proof fn lemma_joined_nonempty(lines: Seq<Seq<char>>)
    requires
        lines.len() > 0,
        lines[0].len() > 0,
    ensures
        joined_log(lines).len() > 0,
    decreases lines.len(),
{
    if lines.len() > 1 {
        assert(lines.drop_last()[0] == lines[0]);
        lemma_joined_nonempty(lines.drop_last());
    }
}

} // verus!
