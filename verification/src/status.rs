//! What the two background queues are doing at the moment.

use vstd::prelude::*;

use crate::models::{copy_text, text_view};
use crate::store::{own_text, str_view};

verus! {

/// The background queues of the ranking.
#[derive(Debug, Clone, Copy, PartialEq, Eq, Structural)]
pub enum ScheduledWorker {
    Latency,
    Speed,
}

/// What one background queue is doing.
#[derive(Debug)]
pub struct BenchmarkWorkerStatus {
    pub running: bool,
    pub phase: Option<String>,
    pub profile_name: Option<String>,
    pub node_name: Option<String>,
    pub completed: usize,
    pub total: usize,
    pub last_error: Option<String>,
}

/// What the status of a queue stands for.
#[verifier::ext_equal]
pub struct WorkerView {
    pub running: bool,
    pub phase: Option<Seq<char>>,
    pub profile_name: Option<Seq<char>>,
    pub node_name: Option<Seq<char>>,
    pub completed: usize,
    pub total: usize,
    pub last_error: Option<Seq<char>>,
}

impl View for BenchmarkWorkerStatus {
    type V = WorkerView;

    open spec fn view(&self) -> WorkerView {
        WorkerView {
            running: self.running,
            phase: text_view(self.phase),
            profile_name: text_view(self.profile_name),
            node_name: text_view(self.node_name),
            completed: self.completed,
            total: self.total,
            last_error: text_view(self.last_error),
        }
    }
}

impl WorkerView {
    /// A queue that has done nothing yet.
    pub open spec fn initial() -> WorkerView {
        WorkerView {
            running: false,
            phase: None,
            profile_name: None,
            node_name: None,
            completed: 0,
            total: 0,
            last_error: None,
        }
    }
}

impl Default for BenchmarkWorkerStatus {
    /// A queue that has done nothing yet.
    fn default() -> (status: Self)
        ensures
            status@ == WorkerView::initial(),
    {
        BenchmarkWorkerStatus {
            running: false,
            phase: None,
            profile_name: None,
            node_name: None,
            completed: 0,
            total: 0,
            last_error: None,
        }
    }
}

impl Clone for BenchmarkWorkerStatus {
    fn clone(&self) -> (copy: Self)
        ensures
            copy == *self,
    {
        BenchmarkWorkerStatus {
            running: self.running,
            phase: copy_text(&self.phase),
            profile_name: copy_text(&self.profile_name),
            node_name: copy_text(&self.node_name),
            completed: self.completed,
            total: self.total,
            last_error: copy_text(&self.last_error),
        }
    }
}

/// What both queues are doing, with a summary of the two.
#[derive(Debug)]
pub struct BenchmarkTaskStatus {
    pub running: bool,
    pub cancellable: bool,
    pub phase: Option<String>,
    pub profile_name: Option<String>,
    pub node_name: Option<String>,
    pub completed: usize,
    pub total: usize,
    pub last_error: Option<String>,
    pub latency: BenchmarkWorkerStatus,
    pub speed: BenchmarkWorkerStatus,
}

/// What the status of both queues stands for.
#[verifier::ext_equal]
pub struct TaskView {
    pub running: bool,
    pub cancellable: bool,
    pub phase: Option<Seq<char>>,
    pub profile_name: Option<Seq<char>>,
    pub node_name: Option<Seq<char>>,
    pub completed: usize,
    pub total: usize,
    pub last_error: Option<Seq<char>>,
    pub latency: WorkerView,
    pub speed: WorkerView,
}

impl View for BenchmarkTaskStatus {
    type V = TaskView;

    open spec fn view(&self) -> TaskView {
        TaskView {
            running: self.running,
            cancellable: self.cancellable,
            phase: text_view(self.phase),
            profile_name: text_view(self.profile_name),
            node_name: text_view(self.node_name),
            completed: self.completed,
            total: self.total,
            last_error: text_view(self.last_error),
            latency: self.latency@,
            speed: self.speed@,
        }
    }
}

impl Default for BenchmarkTaskStatus {
    /// Queues that have done nothing yet.
    fn default() -> (status: Self)
        ensures
            status@ == TaskView::initial(),
    {
        BenchmarkTaskStatus {
            running: false,
            cancellable: false,
            phase: None,
            profile_name: None,
            node_name: None,
            completed: 0,
            total: 0,
            last_error: None,
            latency: BenchmarkWorkerStatus::default(),
            speed: BenchmarkWorkerStatus::default(),
        }
    }
}

impl Clone for BenchmarkTaskStatus {
    fn clone(&self) -> (copy: Self)
        ensures
            copy == *self,
    {
        BenchmarkTaskStatus {
            running: self.running,
            cancellable: self.cancellable,
            phase: copy_text(&self.phase),
            profile_name: copy_text(&self.profile_name),
            node_name: copy_text(&self.node_name),
            completed: self.completed,
            total: self.total,
            last_error: copy_text(&self.last_error),
            latency: self.latency.clone(),
            speed: self.speed.clone(),
        }
    }
}

/// The first of three errors that is there.
pub open spec fn first_error(
    error: Option<Seq<char>>,
    latency: Option<Seq<char>>,
    speed: Option<Seq<char>>,
) -> Option<Seq<char>> {
    if error is Some {
        error
    } else if latency is Some {
        latency
    } else {
        speed
    }
}

impl TaskView {
    /// Queues that have done nothing yet.
    pub open spec fn initial() -> TaskView {
        TaskView {
            running: false,
            cancellable: false,
            phase: None,
            profile_name: None,
            node_name: None,
            completed: 0,
            total: 0,
            last_error: None,
            latency: WorkerView::initial(),
            speed: WorkerView::initial(),
        }
    }

    /// What one of the queues is doing.
    pub open spec fn of_worker(self, worker: ScheduledWorker) -> WorkerView {
        match worker {
            ScheduledWorker::Latency => self.latency,
            ScheduledWorker::Speed => self.speed,
        }
    }

    /// The status with that of one queue replaced.
    pub open spec fn with_worker(self, worker: ScheduledWorker, status: WorkerView) -> TaskView {
        match worker {
            ScheduledWorker::Latency => TaskView { latency: status, ..self },
            ScheduledWorker::Speed => TaskView { speed: status, ..self },
        }
    }

    /// The status once a queue is in a phase of its work. The summary shows that queue.
    pub open spec fn at_work(
        self,
        worker: ScheduledWorker,
        phase: Seq<char>,
        profile_name: Option<Seq<char>>,
        node_name: Option<Seq<char>>,
        completed: usize,
        total: usize,
        error: Option<Seq<char>>,
    ) -> TaskView {
        let noted = self.with_worker(
            worker,
            WorkerView {
                running: true,
                phase: Some(phase),
                profile_name,
                node_name,
                completed,
                total,
                last_error: error,
            },
        );
        TaskView {
            running: true,
            cancellable: true,
            phase: Some(phase),
            profile_name,
            node_name,
            completed,
            total,
            last_error: first_error(error, noted.latency.last_error, noted.speed.last_error),
            ..noted
        }
    }

    /// The status once a queue has ended. The summary shows the queue that still runs, the
    /// latency queue first.
    pub open spec fn at_rest(
        self,
        worker: ScheduledWorker,
        completed: usize,
        total: usize,
        phase: Seq<char>,
        error: Option<Seq<char>>,
    ) -> TaskView {
        let before = self.of_worker(worker);
        let noted = self.with_worker(
            worker,
            WorkerView {
                running: false,
                phase: Some(phase),
                completed,
                total,
                last_error: if error is Some {
                    error
                } else {
                    before.last_error
                },
                ..before
            },
        );
        let shown = if noted.latency.running {
            noted.latency
        } else if noted.speed.running {
            noted.speed
        } else {
            WorkerView {
                running: false,
                phase: Some(phase),
                profile_name: None,
                node_name: None,
                completed,
                total,
                last_error: None,
            }
        };
        TaskView {
            running: shown.running,
            cancellable: shown.running,
            phase: shown.phase,
            profile_name: shown.profile_name,
            node_name: shown.node_name,
            completed: shown.completed,
            total: shown.total,
            last_error: first_error(error, noted.latency.last_error, noted.speed.last_error),
            ..noted
        }
    }

    /// Whether the summary tells rightly if a queue runs.
    pub open spec fn consistent(self) -> bool {
        self.running == (self.latency.running || self.speed.running) && self.cancellable == self.running
    }
}

impl BenchmarkTaskStatus {
    fn choose_error(&self, error: Option<&str>) -> (result: Option<String>)
        ensures
            text_view(result) == first_error(
                str_view(error),
                self@.latency.last_error,
                self@.speed.last_error,
            ),
    {
        match error {
            Some(text) => Some(text.to_owned()),
            None => if self.latency.last_error.is_some() {
                copy_text(&self.latency.last_error)
            } else {
                copy_text(&self.speed.last_error)
            },
        }
    }

    /// Notes the phase that a queue is in.
    pub fn set_worker_status(
        &mut self,
        worker: ScheduledWorker,
        phase: &str,
        profile_name: Option<&str>,
        node_name: Option<&str>,
        completed: usize,
        total: usize,
        error: Option<&str>,
    )
        ensures
            final(self)@ == old(self)@.at_work(
                worker,
                phase@,
                str_view(profile_name),
                str_view(node_name),
                completed,
                total,
                str_view(error),
            ),
    {
        let status = BenchmarkWorkerStatus {
            running: true,
            phase: Some(phase.to_owned()),
            profile_name: own_text(profile_name),
            node_name: own_text(node_name),
            completed,
            total,
            last_error: own_text(error),
        };
        match worker {
            ScheduledWorker::Latency => {
                self.latency = status;
            },
            ScheduledWorker::Speed => {
                self.speed = status;
            },
        }
        self.running = true;
        self.cancellable = true;
        self.phase = Some(phase.to_owned());
        self.profile_name = own_text(profile_name);
        self.node_name = own_text(node_name);
        self.completed = completed;
        self.total = total;
        self.last_error = self.choose_error(error);
    }

    /// Notes that a queue has ended.
    pub fn finish_worker(
        &mut self,
        worker: ScheduledWorker,
        completed: usize,
        total: usize,
        phase: &str,
        error: Option<&str>,
    )
        ensures
            final(self)@ == old(self)@.at_rest(worker, completed, total, phase@, str_view(error)),
    {
        match worker {
            ScheduledWorker::Latency => {
                self.latency.running = false;
                self.latency.phase = Some(phase.to_owned());
                self.latency.completed = completed;
                self.latency.total = total;
                if let Some(text) = error {
                    self.latency.last_error = Some(text.to_owned());
                }
            },
            ScheduledWorker::Speed => {
                self.speed.running = false;
                self.speed.phase = Some(phase.to_owned());
                self.speed.completed = completed;
                self.speed.total = total;
                if let Some(text) = error {
                    self.speed.last_error = Some(text.to_owned());
                }
            },
        }
        let shown = if self.latency.running {
            self.latency.clone()
        } else if self.speed.running {
            self.speed.clone()
        } else {
            BenchmarkWorkerStatus {
                running: false,
                phase: Some(phase.to_owned()),
                profile_name: None,
                node_name: None,
                completed,
                total,
                last_error: None,
            }
        };
        self.running = shown.running;
        self.cancellable = shown.running;
        self.phase = shown.phase;
        self.profile_name = shown.profile_name;
        self.node_name = shown.node_name;
        self.completed = shown.completed;
        self.total = shown.total;
        self.last_error = self.choose_error(error);
    }
}

/// The summary says that work goes on exactly while one of the queues runs, from the start and
/// whatever the queues report.
pub proof fn law_summary_runs_with_the_queues(
    status: TaskView,
    worker: ScheduledWorker,
    phase: Seq<char>,
    profile_name: Option<Seq<char>>,
    node_name: Option<Seq<char>>,
    completed: usize,
    total: usize,
    error: Option<Seq<char>>,
)
    ensures
        TaskView::initial().consistent(),
        status.at_work(worker, phase, profile_name, node_name, completed, total, error).consistent(),
        status.at_rest(worker, completed, total, phase, error).consistent(),
{
}

/// A queue that ends leaves the other one as it is, and the summary then shows the other one as
/// long as it runs.
pub proof fn law_queues_end_alone(
    status: TaskView,
    worker: ScheduledWorker,
    other: ScheduledWorker,
    completed: usize,
    total: usize,
    phase: Seq<char>,
    error: Option<Seq<char>>,
)
    requires
        other != worker,
    ensures
        ({
            let ended = status.at_rest(worker, completed, total, phase, error);
            &&& !ended.of_worker(worker).running
            &&& ended.of_worker(other) == status.of_worker(other)
            &&& status.of_worker(other).running ==> ended.running && ended.phase == status.of_worker(
                other,
            ).phase && ended.node_name == status.of_worker(other).node_name
        }),
{
}

/// To end a queue twice with the same words is the same as to end it once.
pub proof fn law_ending_twice_is_ending_once(
    status: TaskView,
    worker: ScheduledWorker,
    completed: usize,
    total: usize,
    phase: Seq<char>,
    error: Option<Seq<char>>,
)
    ensures
        status.at_rest(worker, completed, total, phase, error).at_rest(worker, completed, total, phase, error)
            == status.at_rest(worker, completed, total, phase, error),
{
    let once = status.at_rest(worker, completed, total, phase, error);
    assert(once.at_rest(worker, completed, total, phase, error) =~= once);
}

} // verus!
