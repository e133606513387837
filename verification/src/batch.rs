//! Manual batches of speed tests.

use vstd::prelude::*;

use crate::errors::BenchmarkError;
use crate::models::{
    text_view, ManualBatchRequest, ManualBatchRow, ManualBatchSnapshot, ManualSpeedMode, SpeedTestResult,
};
use crate::store::{own_text, str_view};
use crate::text::{same_text, texts};

verus! {

/// What a row of a batch stands for.
#[verifier::ext_equal]
pub struct BatchRowView {
    pub node_name: Seq<char>,
    pub status: Seq<char>,
    pub error: Option<Seq<char>>,
    pub result: Option<SpeedTestResult>,
}

impl View for ManualBatchRow {
    type V = BatchRowView;

    open spec fn view(&self) -> BatchRowView {
        BatchRowView {
            node_name: self.node_name@,
            status: self.status@,
            error: text_view(self.error),
            result: self.result,
        }
    }
}

/// What the rows of a batch stand for.
pub open spec fn batch_rows(rows: Seq<ManualBatchRow>) -> Seq<BatchRowView> {
    rows.map_values(|row: ManualBatchRow| row@)
}

/// What a batch stands for.
#[verifier::ext_equal]
pub struct BatchView {
    pub job_id: Seq<char>,
    pub running: bool,
    pub mode: ManualSpeedMode,
    pub rows: Seq<BatchRowView>,
}

impl View for ManualBatchSnapshot {
    type V = BatchView;

    open spec fn view(&self) -> BatchView {
        BatchView {
            job_id: self.job_id@,
            running: self.running,
            mode: self.mode,
            rows: batch_rows(self.rows@),
        }
    }
}

impl Clone for ManualBatchSnapshot {
    fn clone(&self) -> (copy: Self)
        ensures
            copy@ == self@,
    {
        let mut rows: Vec<ManualBatchRow> = Vec::new();
        for i in 0..self.rows.len()
            invariant
                rows@ == self.rows@.take(i as int),
        {
            rows.push(self.rows[i].clone());
        }
        ManualBatchSnapshot { job_id: self.job_id.clone(), running: self.running, mode: self.mode, rows }
    }
}

/// Whether a row waits for its test or is being tested.
pub open spec fn row_open(row: BatchRowView) -> bool {
    row.status == "queued"@ || row.status == "testing"@
}

/// The index of the first row of a node, or the number of rows.
pub open spec fn row_at(rows: Seq<BatchRowView>, node_name: Seq<char>) -> int
    decreases rows.len(),
{
    if rows.len() == 0 {
        0
    } else if rows[0].node_name == node_name {
        0
    } else {
        1 + row_at(rows.drop_first(), node_name)
    }
}

/// The row of a node is the first one with its name.
pub proof fn lemma_row_at(rows: Seq<BatchRowView>, node_name: Seq<char>, at: int)
    requires
        0 <= at <= rows.len(),
        forall|i: int| 0 <= i < at ==> (#[trigger] rows[i]).node_name != node_name,
        at < rows.len() ==> rows[at].node_name == node_name,
    ensures
        row_at(rows, node_name) == at,
    decreases rows.len(),
{
    if rows.len() > 0 && at > 0 {
        let rest = rows.drop_first();
        assert(rows[0].node_name != node_name);
        assert forall|i: int| 0 <= i < at - 1 implies (#[trigger] rest[i]).node_name != node_name by {
            assert(rest[i] == rows[i + 1]);
        }
        lemma_row_at(rest, node_name, at - 1);
    }
}

/// The rows with the first one of a node changed.
pub open spec fn with_row(
    rows: Seq<BatchRowView>,
    node_name: Seq<char>,
    status: Seq<char>,
    error: Option<Seq<char>>,
    result: Option<SpeedTestResult>,
) -> Seq<BatchRowView> {
    let at = row_at(rows, node_name);
    if at < rows.len() {
        rows.update(at, BatchRowView { node_name: rows[at].node_name, status, error, result })
    } else {
        rows
    }
}

/// The rows with those that are open closed.
pub open spec fn closed_rows(
    rows: Seq<BatchRowView>,
    status: Seq<char>,
    error: Option<Seq<char>>,
) -> Seq<BatchRowView> {
    rows.map_values(
        |row: BatchRowView|
            if row_open(row) {
                BatchRowView { status, error, ..row }
            } else {
                row
            },
    )
}

impl BatchView {
    /// The batch once it is over. What is still open fails with the error of the batch, or was
    /// cancelled.
    pub open spec fn ended(self, error: Option<Seq<char>>, cancelled: bool) -> BatchView {
        let failed = match error {
            Some(error) => closed_rows(self.rows, "failed"@, Some(error)),
            None => self.rows,
        };
        let rows = if cancelled {
            closed_rows(failed, "cancelled"@, None)
        } else {
            failed
        };
        BatchView { running: false, rows, ..self }
    }
}

/// The index of a batch, or the number of batches.
pub open spec fn job_at(jobs: Seq<BatchView>, job_id: Seq<char>) -> int
    decreases jobs.len(),
{
    if jobs.len() == 0 {
        0
    } else if jobs[0].job_id == job_id {
        0
    } else {
        1 + job_at(jobs.drop_first(), job_id)
    }
}

/// The batch with an id.
pub open spec fn job_of(jobs: Seq<BatchView>, job_id: Seq<char>) -> Option<BatchView> {
    let at = job_at(jobs, job_id);
    if at < jobs.len() {
        Some(jobs[at])
    } else {
        None
    }
}

proof fn lemma_job_at(jobs: Seq<BatchView>, job_id: Seq<char>, at: int)
    requires
        0 <= at <= jobs.len(),
        forall|i: int| 0 <= i < at ==> (#[trigger] jobs[i]).job_id != job_id,
        at < jobs.len() ==> jobs[at].job_id == job_id,
    ensures
        job_at(jobs, job_id) == at,
    decreases jobs.len(),
{
    if jobs.len() > 0 && at > 0 {
        let rest = jobs.drop_first();
        assert(jobs[0].job_id != job_id);
        assert forall|i: int| 0 <= i < at - 1 implies (#[trigger] rest[i]).job_id != job_id by {
            assert(rest[i] == jobs[i + 1]);
        }
        lemma_job_at(rest, job_id, at - 1);
    }
}

/// The batches with one added, or put in the place of the one with the same id.
pub open spec fn with_job(jobs: Seq<BatchView>, job: BatchView) -> Seq<BatchView> {
    let at = job_at(jobs, job.job_id);
    if at < jobs.len() {
        jobs.update(at, job)
    } else {
        jobs.push(job)
    }
}

/// The batches with the rows of one changed for a node.
pub open spec fn with_job_row(
    jobs: Seq<BatchView>,
    job_id: Seq<char>,
    node_name: Seq<char>,
    status: Seq<char>,
    error: Option<Seq<char>>,
    result: Option<SpeedTestResult>,
) -> Seq<BatchView> {
    let at = job_at(jobs, job_id);
    if at < jobs.len() {
        jobs.update(
            at,
            BatchView { rows: with_row(jobs[at].rows, node_name, status, error, result), ..jobs[at] },
        )
    } else {
        jobs
    }
}

/// The batches with one ended.
pub open spec fn with_job_ended(
    jobs: Seq<BatchView>,
    job_id: Seq<char>,
    error: Option<Seq<char>>,
    cancelled: bool,
) -> Seq<BatchView> {
    let at = job_at(jobs, job_id);
    if at < jobs.len() {
        jobs.update(at, jobs[at].ended(error, cancelled))
    } else {
        jobs
    }
}

/// All manual batches since the start.
#[derive(Debug)]
pub struct ManualJobs {
    pub jobs: Vec<ManualBatchSnapshot>,
}

impl View for ManualJobs {
    type V = Seq<BatchView>;

    open spec fn view(&self) -> Seq<BatchView> {
        self.jobs@.map_values(|job: ManualBatchSnapshot| job@)
    }
}

/// Whether some batch runs.
pub open spec fn some_running(jobs: Seq<BatchView>) -> bool {
    exists|i: int| 0 <= i < jobs.len() && (#[trigger] jobs[i]).running
}

/// A batch before its first test.
pub open spec fn fresh_batch(job_id: Seq<char>, mode: ManualSpeedMode, node_names: Seq<Seq<char>>) -> BatchView {
    BatchView {
        job_id,
        running: true,
        mode,
        rows: node_names.map_values(
            |name: Seq<char>| BatchRowView { node_name: name, status: "queued"@, error: None, result: None },
        ),
    }
}

impl ManualJobs {
    /// No batch.
    pub fn new() -> (jobs: ManualJobs)
        ensures
            jobs@ == Seq::<BatchView>::empty(),
    {
        let jobs = ManualJobs { jobs: Vec::new() };
        assert(jobs@ =~= Seq::<BatchView>::empty());
        jobs
    }

    fn find(&self, job_id: &str) -> (at: usize)
        ensures
            at == job_at(self@, job_id@),
            at <= self.jobs.len(),
    {
        let mut at: usize = 0;
        while at < self.jobs.len() && !same_text(self.jobs[at].job_id.as_str(), job_id)
            invariant
                at <= self.jobs.len(),
                forall|i: int| 0 <= i < at ==> (#[trigger] self@[i]).job_id != job_id@,
            decreases self.jobs.len() - at,
        {
            assert(self@[at as int] == self.jobs@[at as int]@);
            at += 1;
        }
        proof {
            if at < self.jobs.len() {
                assert(self@[at as int] == self.jobs@[at as int]@);
            }
            lemma_job_at(self@, job_id@, at as int);
        }
        at
    }

    /// Begins a batch: one row for each node, all waiting. The profile is the one of the request or
    /// the one in use; it is returned together with the batch.
    pub fn start_manual_batch(
        &mut self,
        job_id: &str,
        request: &ManualBatchRequest,
        current_profile: Option<String>,
    ) -> (result: Result<(ManualBatchSnapshot, String), BenchmarkError>)
        ensures
            if request.node_names@.len() == 0 {
                &&& result matches Err(error)
                &&& error == BenchmarkError::EmptyBatch
                &&& final(self)@ == old(self)@
            } else if request.profile_uid is None && current_profile is None {
                &&& result matches Err(error)
                &&& error == BenchmarkError::NoCurrentProfile
                &&& final(self)@ == old(self)@
            } else {
                &&& result matches Ok(started)
                &&& started.0@ == fresh_batch(job_id@, request.mode, texts(request.node_names@))
                &&& Some(started.1@) == match request.profile_uid {
                    Some(uid) => Some(uid@),
                    None => text_view(current_profile),
                }
                &&& final(self)@ == with_job(old(self)@, started.0@)
            },
    {
        if request.node_names.len() == 0 {
            return Err(BenchmarkError::EmptyBatch);
        }
        let profile_uid = match &request.profile_uid {
            Some(uid) => uid.clone(),
            None => match current_profile {
                Some(uid) => uid,
                None => {
                    return Err(BenchmarkError::NoCurrentProfile);
                },
            },
        };
        let ghost wanted = fresh_batch(job_id@, request.mode, texts(request.node_names@));
        let mut rows: Vec<ManualBatchRow> = Vec::new();
        for i in 0..request.node_names.len()
            invariant
                wanted == fresh_batch(job_id@, request.mode, texts(request.node_names@)),
                batch_rows(rows@) == wanted.rows.take(i as int),
        {
            let row = ManualBatchRow {
                node_name: request.node_names[i].clone(),
                status: "queued".to_owned(),
                error: None,
                result: None,
            };
            let ghost before = rows@;
            assert(texts(request.node_names@)[i as int] == request.node_names@[i as int]@);
            assert(wanted.rows[i as int] =~= row@);
            rows.push(row);
            assert(batch_rows(rows@) =~= batch_rows(before).push(row@));
            assert(wanted.rows.take(i + 1) =~= wanted.rows.take(i as int).push(wanted.rows[i as int]));
        }
        assert(wanted.rows.take(wanted.rows.len() as int) =~= wanted.rows);
        let snapshot = ManualBatchSnapshot { job_id: job_id.to_owned(), running: true, mode: request.mode, rows };
        assert(snapshot@ =~= wanted);
        let kept = snapshot.clone();
        let ghost given = self@;
        let at: usize = self.find(job_id);
        if at < self.jobs.len() {
            self.jobs.set(at, kept);
        } else {
            self.jobs.push(kept);
        }
        assert(self@ =~= with_job(given, wanted));
        Ok((snapshot, profile_uid))
    }

    /// The progress of a batch.
    pub fn manual_batch(&self, job_id: &str) -> (result: Result<ManualBatchSnapshot, BenchmarkError>)
        ensures
            match (result, job_of(self@, job_id@)) {
                (Ok(snapshot), Some(job)) => snapshot@ == job,
                (Err(error), None) => error == BenchmarkError::UnknownBatch,
                _ => false,
            },
    {
        let at: usize = self.find(job_id);
        if at < self.jobs.len() {
            assert(self@[at as int] == self.jobs@[at as int]@);
            Ok(self.jobs[at].clone())
        } else {
            Err(BenchmarkError::UnknownBatch)
        }
    }

    /// Whether a batch can be cancelled: it must still run.
    pub fn cancel_manual_batch(&self, job_id: &str) -> (result: Result<(), BenchmarkError>)
        ensures
            match (result, job_of(self@, job_id@)) {
                (Ok(_), Some(job)) => job.running,
                (Err(error), Some(job)) => !job.running && error == BenchmarkError::UnknownBatchToCancel,
                (Err(error), None) => error == BenchmarkError::UnknownBatchToCancel,
                (Ok(_), None) => false,
            },
    {
        let at: usize = self.find(job_id);
        if at < self.jobs.len() {
            assert(self@[at as int] == self.jobs@[at as int]@);
            if self.jobs[at].running {
                return Ok(());
            }
        }
        Err(BenchmarkError::UnknownBatchToCancel)
    }

    /// Whether some batch runs.
    pub fn any_running(&self) -> (result: bool)
        ensures
            result == some_running(self@),
    {
        for i in 0..self.jobs.len()
            invariant
                forall|k: int| 0 <= k < i ==> !(#[trigger] self@[k]).running,
        {
            assert(self@[i as int] == self.jobs@[i as int]@);
            if self.jobs[i].running {
                return true;
            }
        }
        false
    }

    /// Notes the state of the test of a node in a batch.
    pub fn update_manual_row(
        &mut self,
        job_id: &str,
        node_name: &str,
        status: &str,
        error: Option<&str>,
        result: Option<SpeedTestResult>,
    )
        ensures
            final(self)@ == with_job_row(old(self)@, job_id@, node_name@, status@, str_view(error), result),
    {
        let ghost given = self@;
        let at: usize = self.find(job_id);
        if at < self.jobs.len() {
            assert(given[at as int] == self.jobs@[at as int]@);
            let ghost rows = given[at as int].rows;
            let mut row: usize = 0;
            while row < self.jobs[at].rows.len() && !same_text(
                self.jobs[at].rows[row].node_name.as_str(),
                node_name,
            )
                invariant
                    at < self.jobs.len(),
                    self@ == given,
                    rows == batch_rows(self.jobs@[at as int].rows@),
                    row <= self.jobs@[at as int].rows.len(),
                    forall|i: int| 0 <= i < row ==> (#[trigger] rows[i]).node_name != node_name@,
                decreases self.jobs@[at as int].rows.len() - row,
            {
                assert(rows[row as int] == self.jobs@[at as int].rows@[row as int]@);
                row += 1;
            }
            proof {
                if row < rows.len() {
                    assert(rows[row as int] == self.jobs@[at as int].rows@[row as int]@);
                }
                lemma_row_at(rows, node_name@, row as int);
            }
            if row < self.jobs[at].rows.len() {
                let changed = ManualBatchRow {
                    node_name: self.jobs[at].rows[row].node_name.clone(),
                    status: status.to_owned(),
                    error: own_text(error),
                    result,
                };
                let job = &mut self.jobs[at];
                job.rows.set(row, changed);
                assert(batch_rows(self.jobs@[at as int].rows@) =~= with_row(
                    rows,
                    node_name@,
                    status@,
                    str_view(error),
                    result,
                ));
            }
        }
        assert(self@ =~= with_job_row(given, job_id@, node_name@, status@, str_view(error), result));
    }

    fn close_rows(&mut self, at: usize, status: &str, error: Option<&str>)
        requires
            at < old(self).jobs.len(),
        ensures
            final(self).jobs.len() == old(self).jobs.len(),
            final(self)@ == old(self)@.update(
                at as int,
                BatchView {
                    rows: closed_rows(old(self)@[at as int].rows, status@, str_view(error)),
                    ..old(self)@[at as int]
                },
            ),
    {
        let ghost given = self@;
        let ghost rows = given[at as int].rows;
        let ghost wanted = closed_rows(rows, status@, str_view(error));
        assert(given[at as int] == self.jobs@[at as int]@);
        let mut closed: Vec<ManualBatchRow> = Vec::new();
        let total: usize = self.jobs[at].rows.len();
        for i in 0..total
            invariant
                total == rows.len(),
                at < self.jobs.len(),
                self@ == given,
                rows == batch_rows(self.jobs@[at as int].rows@),
                wanted == closed_rows(rows, status@, str_view(error)),
                batch_rows(closed@) == wanted.take(i as int),
        {
            let row = &self.jobs[at].rows[i];
            assert(rows[i as int] == row@);
            let open: bool = same_text(row.status.as_str(), "queued") || same_text(row.status.as_str(), "testing");
            let next = if open {
                ManualBatchRow {
                    node_name: row.node_name.clone(),
                    status: status.to_owned(),
                    error: own_text(error),
                    result: match &row.result {
                        Some(result) => Some(result.clone()),
                        None => None,
                    },
                }
            } else {
                row.clone()
            };
            assert(next@ =~= wanted[i as int]);
            let ghost before = closed@;
            closed.push(next);
            assert(batch_rows(closed@) =~= batch_rows(before).push(next@));
            assert(wanted.take(i + 1) =~= wanted.take(i as int).push(wanted[i as int]));
        }
        assert(wanted.take(wanted.len() as int) =~= wanted);
        let job = &mut self.jobs[at];
        job.rows = closed;
        assert(self@ =~= given.update(at as int, BatchView { rows: wanted, ..given[at as int] }));
    }

    /// Notes that a batch is over: with an error, all that is open fails with it; after a
    /// cancellation, all that is open is cancelled.
    pub fn finish_manual_batch(&mut self, job_id: &str, error: Option<&str>, cancelled: bool)
        ensures
            final(self)@ == with_job_ended(old(self)@, job_id@, str_view(error), cancelled),
    {
        let ghost given = self@;
        let at: usize = self.find(job_id);
        if at >= self.jobs.len() {
            return;
        }
        if let Some(text) = error {
            self.close_rows(at, "failed", Some(text));
        }
        if cancelled {
            self.close_rows(at, "cancelled", None);
        }
        let ghost closed = self@;
        assert(closed[at as int] == self.jobs@[at as int]@);
        let job = &mut self.jobs[at];
        job.running = false;
        assert(self@ =~= closed.update(at as int, BatchView { running: false, ..closed[at as int] }));
        assert(self@ =~= with_job_ended(given, job_id@, str_view(error), cancelled));
    }
}

/// A batch that is over with an error or after a cancellation has no open row.
pub proof fn law_ended_batches_leave_nothing_open(batch: BatchView, error: Option<Seq<char>>, cancelled: bool, i: int)
    requires
        error is Some || cancelled,
        0 <= i < batch.rows.len(),
    ensures
        !batch.ended(error, cancelled).running,
        batch.ended(error, cancelled).rows.len() == batch.rows.len(),
        !row_open(batch.ended(error, cancelled).rows[i]),
{
    reveal_strlit("queued");
    reveal_strlit("testing");
    reveal_strlit("failed");
    reveal_strlit("cancelled");
    assert("queued"@[0] == 'q');
    assert("testing"@[0] == 't');
    assert("failed"@[0] == 'f');
    assert("cancelled"@[0] == 'c');
}

/// Rows whose test is over keep their result when the batch ends.
pub proof fn law_ended_batches_keep_results(batch: BatchView, error: Option<Seq<char>>, cancelled: bool, i: int)
    requires
        0 <= i < batch.rows.len(),
        !row_open(batch.rows[i]),
    ensures
        batch.ended(error, cancelled).rows[i] == batch.rows[i],
{
}

proof fn lemma_job_at_facts(jobs: Seq<BatchView>, job_id: Seq<char>)
    ensures
        0 <= job_at(jobs, job_id) <= jobs.len(),
        job_at(jobs, job_id) < jobs.len() ==> jobs[job_at(jobs, job_id)].job_id == job_id,
        forall|i: int| 0 <= i < job_at(jobs, job_id) ==> (#[trigger] jobs[i]).job_id != job_id,
    decreases jobs.len(),
{
    if jobs.len() > 0 && jobs[0].job_id != job_id {
        let rest = jobs.drop_first();
        lemma_job_at_facts(rest, job_id);
        assert forall|i: int| 0 <= i < job_at(jobs, job_id) implies (#[trigger] jobs[i]).job_id != job_id by {
            if i > 0 {
                assert(rest[i - 1] == jobs[i]);
            }
        }
    }
}

/// What is done to one batch changes that batch and no other.
pub proof fn law_batches_leave_each_other_alone(jobs: Seq<BatchView>, job: BatchView, job_id: Seq<char>)
    ensures
        job_of(with_job(jobs, job), job_id) == if job_id == job.job_id {
            Some(job)
        } else {
            job_of(jobs, job_id)
        },
{
    let after = with_job(jobs, job);
    let at = job_at(jobs, job.job_id);
    let k = job_at(jobs, job_id);
    lemma_job_at_facts(jobs, job.job_id);
    lemma_job_at_facts(jobs, job_id);
    if job_id == job.job_id {
        lemma_job_at(after, job_id, at);
    } else if k < jobs.len() {
        assert forall|i: int| 0 <= i < k implies (#[trigger] after[i]).job_id != job_id by {
            assert(jobs[i].job_id != job_id);
        }
        lemma_job_at(after, job_id, k);
    } else {
        assert forall|i: int| 0 <= i < after.len() implies (#[trigger] after[i]).job_id != job_id by {
            if i < jobs.len() {
                assert(jobs[i].job_id != job_id);
            }
        }
        lemma_job_at(after, job_id, after.len() as int);
    }
}

/// Changing a row or ending a batch amounts to putting the changed batch in its place.
pub proof fn lemma_changed_batch(
    jobs: Seq<BatchView>,
    job_id: Seq<char>,
    node_name: Seq<char>,
    status: Seq<char>,
    error: Option<Seq<char>>,
    result: Option<SpeedTestResult>,
    cancelled: bool,
)
    requires
        job_of(jobs, job_id) is Some,
    ensures
        ({
            let batch = job_of(jobs, job_id)->0;
            &&& batch.job_id == job_id
            &&& with_job_row(jobs, job_id, node_name, status, error, result) == with_job(
                jobs,
                BatchView { rows: with_row(batch.rows, node_name, status, error, result), ..batch },
            )
            &&& with_job_ended(jobs, job_id, error, cancelled) == with_job(jobs, batch.ended(error, cancelled))
        }),
{
    lemma_job_at_facts(jobs, job_id);
}

/// What is noted of a batch, and the end of a batch, concern the batch with that id alone; where there
/// is none, nothing changes.
pub proof fn law_notes_concern_one_batch(
    jobs: Seq<BatchView>,
    job_id: Seq<char>,
    node_name: Seq<char>,
    status: Seq<char>,
    error: Option<Seq<char>>,
    result: Option<SpeedTestResult>,
    cancelled: bool,
    other: Seq<char>,
)
    ensures
        ({
            let noted = with_job_row(jobs, job_id, node_name, status, error, result);
            let ended = with_job_ended(jobs, job_id, error, cancelled);
            let was = job_of(jobs, job_id);
            &&& was is None ==> noted == jobs && ended == jobs
            &&& was is Some ==> job_of(noted, job_id) == Some(
                BatchView { rows: with_row(was->0.rows, node_name, status, error, result), ..was->0 },
            )
            &&& was is Some ==> job_of(ended, job_id) == Some(was->0.ended(error, cancelled))
            &&& other != job_id ==> job_of(noted, other) == job_of(jobs, other) && job_of(ended, other)
                == job_of(jobs, other)
        }),
{
    let noted = with_job_row(jobs, job_id, node_name, status, error, result);
    let ended = with_job_ended(jobs, job_id, error, cancelled);
    lemma_job_at_facts(jobs, job_id);
    lemma_job_at_facts(jobs, other);
    let at = job_at(jobs, job_id);
    if at < jobs.len() {
        assert(forall|i: int| 0 <= i < jobs.len() ==> (#[trigger] noted[i]).job_id == jobs[i].job_id);
        assert(forall|i: int| 0 <= i < jobs.len() ==> (#[trigger] ended[i]).job_id == jobs[i].job_id);
        lemma_job_at(noted, job_id, at);
        lemma_job_at(ended, job_id, at);
        let k = job_at(jobs, other);
        lemma_job_at(noted, other, k);
        lemma_job_at(ended, other, k);
    }
}

} // verus!
