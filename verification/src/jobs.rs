//! Scans that run while the client does not wait: their records.
use vstd::prelude::*;

use crate::keyed::Keyed;

verus! {

/// How far a job has come.
#[derive(Debug)]
pub enum JobState {
    Pending,
    Running,
    Succeeded { result_body: String },
    Failed { message: String, status_code: u16 },
}

/// A job: how far it has come, and the processors that it was given.
#[derive(Debug)]
pub struct AsyncJobRecord {
    pub state: JobState,
    pub allocated_processors: usize,
}

/// How far a job has come, and what it has to show.
#[verifier::ext_equal]
pub enum JobView {
    Pending,
    Running,
    Succeeded { result_body: Seq<char> },
    Failed { message: Seq<char>, status_code: u16 },
}

impl View for JobState {
    type V = JobView;

    open spec fn view(&self) -> JobView {
        match self {
            JobState::Pending => JobView::Pending,
            JobState::Running => JobView::Running,
            JobState::Succeeded { result_body } => JobView::Succeeded {
                result_body: result_body@,
            },
            JobState::Failed { message, status_code } => JobView::Failed {
                message: message@,
                status_code: *status_code,
            },
        }
    }
}

/// A job, with its texts as sequences of characters.
#[verifier::ext_equal]
pub struct RecordView {
    pub state: JobView,
    pub allocated_processors: usize,
}

impl View for AsyncJobRecord {
    type V = RecordView;

    open spec fn view(&self) -> RecordView {
        RecordView { state: self.state@, allocated_processors: self.allocated_processors }
    }
}

impl AsyncJobRecord {
    /// A job that waits.
    pub fn pending() -> (r: AsyncJobRecord)
        ensures
            r@ == (RecordView { state: JobView::Pending, allocated_processors: 0 }),
    {
        AsyncJobRecord { state: JobState::Pending, allocated_processors: 0 }
    }

    /// A job that runs.
    pub fn running(allocated_processors: usize) -> (r: AsyncJobRecord)
        ensures
            r@ == (RecordView { state: JobView::Running, allocated_processors }),
    {
        AsyncJobRecord { state: JobState::Running, allocated_processors }
    }

    /// A job that is done.
    pub fn succeeded(result_body: String, allocated_processors: usize) -> (r: AsyncJobRecord)
        ensures
            r@ == (RecordView {
                state: JobView::Succeeded { result_body: result_body@ },
                allocated_processors,
            }),
    {
        AsyncJobRecord { state: JobState::Succeeded { result_body }, allocated_processors }
    }

    /// A job that failed.
    pub fn failed(message: String, status_code: u16, allocated_processors: usize) -> (r:
        AsyncJobRecord)
        ensures
            r@ == (RecordView {
                state: JobView::Failed { message: message@, status_code },
                allocated_processors,
            }),
    {
        AsyncJobRecord { state: JobState::Failed { message, status_code }, allocated_processors }
    }
}

/// The jobs of a server by their identifiers.
#[derive(Debug)]
pub struct JobTable {
    records: Keyed<AsyncJobRecord>,
}

impl View for JobTable {
    type V = Map<Seq<char>, RecordView>;

    closed spec fn view(&self) -> Map<Seq<char>, RecordView> {
        self.records@.map_values(|r: AsyncJobRecord| r@)
    }
}

impl JobTable {
    /// No jobs.
    pub fn new() -> (r: JobTable)
        ensures
            r@ == Map::<Seq<char>, RecordView>::empty(),
    {
        let r = JobTable { records: Keyed::new() };
        assert(r@ =~= Map::<Seq<char>, RecordView>::empty());
        r
    }

    /// Records a job, in place of what was known of it.
    pub fn insert_job(&mut self, job_id: String, record: AsyncJobRecord)
        ensures
            final(self)@ == old(self)@.insert(job_id@, record@),
    {
        self.records.insert(job_id, record);
        assert(self@ =~= old(self)@.insert(job_id@, record@));
    }

    /// The record of a job.
    pub fn get_job(&self, job_id: &str) -> (r: Option<&AsyncJobRecord>)
        ensures
            r is Some == self@.contains_key(job_id@),
            r is Some ==> r->0@ == self@[job_id@],
    {
        self.records.get(job_id)
    }
}

} // verus!
