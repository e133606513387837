//! The tests of one node, in their order.
//!
//! A node that is tested holds the line for itself: its latency is measured first, then the
//! directions that are due, with a rest before, between and after.

use vstd::prelude::*;

use crate::models::{NodeView, StoredNode};
use crate::status::{BenchmarkTaskStatus, ScheduledWorker, TaskView};

verus! {

/// Where the tests of a node stand.
#[derive(Debug, Clone, Copy, PartialEq, Eq, Structural)]
pub enum VisitStage {
    /// Nothing has happened yet.
    Start,
    /// The node waits for its turn on the line.
    Queue,
    /// The line rests before the first test.
    FirstRest,
    Latency,
    Download,
    /// The line rests between the two directions.
    MiddleRest,
    Upload,
    /// The line rests after the last test.
    LastRest,
    /// The node is left.
    Over,
}

/// What is to be done for a node.
#[derive(Debug, Clone, Copy, PartialEq, Eq, Structural)]
pub enum VisitStep {
    /// Wait until no other test is under way.
    AwaitTurn,
    /// Let the line rest.
    Rest,
    /// Measure the latency.
    TestLatency,
    /// Deal with the download.
    TestDownload,
    /// Deal with the upload.
    TestUpload,
    /// Leave the node.
    Leave,
}

/// The tests of one node.
#[derive(Debug)]
pub struct NodeVisit {
    pub worker: ScheduledWorker,
    pub node: StoredNode,
    pub download_due: bool,
    pub upload_due: bool,
    pub completed: usize,
    pub total: usize,
    pub stage: VisitStage,
}

/// The stage that follows one. A visit that is stopped is over; the latency queue measures the
/// latency only.
pub open spec fn following(
    stage: VisitStage,
    worker: ScheduledWorker,
    download_due: bool,
    upload_due: bool,
    stopped: bool,
) -> VisitStage {
    match stage {
        VisitStage::Start => VisitStage::Queue,
        VisitStage::Queue => if stopped {
            VisitStage::Over
        } else {
            VisitStage::FirstRest
        },
        VisitStage::FirstRest => if stopped {
            VisitStage::Over
        } else {
            VisitStage::Latency
        },
        VisitStage::Latency => if stopped || worker == ScheduledWorker::Latency {
            VisitStage::Over
        } else if download_due {
            VisitStage::Download
        } else if upload_due {
            VisitStage::Upload
        } else {
            VisitStage::LastRest
        },
        VisitStage::Download => if stopped {
            VisitStage::Over
        } else if upload_due {
            VisitStage::MiddleRest
        } else {
            VisitStage::LastRest
        },
        VisitStage::MiddleRest => if stopped {
            VisitStage::Over
        } else {
            VisitStage::Upload
        },
        VisitStage::Upload => if stopped {
            VisitStage::Over
        } else {
            VisitStage::LastRest
        },
        VisitStage::LastRest => VisitStage::Over,
        VisitStage::Over => VisitStage::Over,
    }
}

/// What a stage asks for.
pub open spec fn step_at(stage: VisitStage) -> VisitStep {
    match stage {
        VisitStage::Queue => VisitStep::AwaitTurn,
        VisitStage::FirstRest => VisitStep::Rest,
        VisitStage::Latency => VisitStep::TestLatency,
        VisitStage::Download => VisitStep::TestDownload,
        VisitStage::MiddleRest => VisitStep::Rest,
        VisitStage::Upload => VisitStep::TestUpload,
        VisitStage::LastRest => VisitStep::Rest,
        VisitStage::Start => VisitStep::Leave,
        VisitStage::Over => VisitStep::Leave,
    }
}

/// The phase that the status shows in a stage; the directions show theirs once their test begins.
pub open spec fn phase_at(stage: VisitStage) -> Option<Seq<char>> {
    match stage {
        VisitStage::Queue => Some("waitingForOtherQueue"@),
        VisitStage::FirstRest => Some("cooldown"@),
        VisitStage::MiddleRest => Some("cooldown"@),
        VisitStage::LastRest => Some("cooldown"@),
        VisitStage::Latency => Some("latency"@),
        _ => None,
    }
}

/// The status once a visit is in a stage.
pub open spec fn shown_at(
    status: TaskView,
    stage: VisitStage,
    worker: ScheduledWorker,
    node: NodeView,
    completed: usize,
    total: usize,
) -> TaskView {
    match phase_at(stage) {
        Some(phase) => status.at_work(
            worker,
            phase,
            Some(node.profile_name),
            Some(node.node_name),
            completed,
            total,
            None,
        ),
        None => status,
    }
}

impl NodeVisit {
    /// The visit to a node. Its directions are due where their time has come.
    pub fn new(worker: ScheduledWorker, node: StoredNode, now: i64, completed: usize, total: usize) -> (visit: NodeVisit)
        ensures
            visit == (NodeVisit {
                worker,
                node,
                download_due: node.next_download_at <= now,
                upload_due: node.next_upload_at <= now,
                completed,
                total,
                stage: VisitStage::Start,
            }),
    {
        NodeVisit {
            worker,
            download_due: node.next_download_at <= now,
            upload_due: node.next_upload_at <= now,
            node,
            completed,
            total,
            stage: VisitStage::Start,
        }
    }

    /// Goes on to the next stage and says what it asks for. The caller says whether the visit was
    /// stopped during the stage before.
    pub fn next(&mut self, status: &mut BenchmarkTaskStatus, stopped: bool) -> (step: VisitStep)
        ensures
            *final(self) == (NodeVisit {
                stage: following(
                    old(self).stage,
                    old(self).worker,
                    old(self).download_due,
                    old(self).upload_due,
                    stopped,
                ),
                ..*old(self)
            }),
            step == step_at(final(self).stage),
            final(status)@ == shown_at(
                old(status)@,
                final(self).stage,
                old(self).worker,
                old(self).node@,
                old(self).completed,
                old(self).total,
            ),
    {
        let stage = match self.stage {
            VisitStage::Start => VisitStage::Queue,
            VisitStage::Queue => if stopped {
                VisitStage::Over
            } else {
                VisitStage::FirstRest
            },
            VisitStage::FirstRest => if stopped {
                VisitStage::Over
            } else {
                VisitStage::Latency
            },
            VisitStage::Latency => if stopped || self.worker == ScheduledWorker::Latency {
                VisitStage::Over
            } else if self.download_due {
                VisitStage::Download
            } else if self.upload_due {
                VisitStage::Upload
            } else {
                VisitStage::LastRest
            },
            VisitStage::Download => if stopped {
                VisitStage::Over
            } else if self.upload_due {
                VisitStage::MiddleRest
            } else {
                VisitStage::LastRest
            },
            VisitStage::MiddleRest => if stopped {
                VisitStage::Over
            } else {
                VisitStage::Upload
            },
            VisitStage::Upload => if stopped {
                VisitStage::Over
            } else {
                VisitStage::LastRest
            },
            VisitStage::LastRest => VisitStage::Over,
            VisitStage::Over => VisitStage::Over,
        };
        self.stage = stage;
        match stage {
            VisitStage::Queue => {
                self.show(status, "waitingForOtherQueue");
                VisitStep::AwaitTurn
            },
            VisitStage::FirstRest | VisitStage::MiddleRest | VisitStage::LastRest => {
                self.show(status, "cooldown");
                VisitStep::Rest
            },
            VisitStage::Latency => {
                self.show(status, "latency");
                VisitStep::TestLatency
            },
            VisitStage::Download => VisitStep::TestDownload,
            VisitStage::Upload => VisitStep::TestUpload,
            VisitStage::Start | VisitStage::Over => VisitStep::Leave,
        }
    }

    /// Shows in the status that the visit is in a phase.
    pub fn show(&self, status: &mut BenchmarkTaskStatus, phase: &str)
        ensures
            final(status)@ == old(status)@.at_work(
                self.worker,
                phase@,
                Some(self.node@.profile_name),
                Some(self.node@.node_name),
                self.completed,
                self.total,
                None,
            ),
    {
        status.set_worker_status(
            self.worker,
            phase,
            Some(self.node.profile_name.as_str()),
            Some(self.node.node_name.as_str()),
            self.completed,
            self.total,
            None,
        );
    }
}

/// How far a stage lies from the end.
pub open spec fn stages_left(stage: VisitStage) -> nat {
    match stage {
        VisitStage::Start => 8,
        VisitStage::Queue => 7,
        VisitStage::FirstRest => 6,
        VisitStage::Latency => 5,
        VisitStage::Download => 4,
        VisitStage::MiddleRest => 3,
        VisitStage::Upload => 2,
        VisitStage::LastRest => 1,
        VisitStage::Over => 0,
    }
}

/// A visit never goes back, a stopped visit makes no further test, and the line rests after each
/// test of a direction that was not stopped.
pub proof fn law_visits_go_forward(
    stage: VisitStage,
    worker: ScheduledWorker,
    download_due: bool,
    upload_due: bool,
    stopped: bool,
)
    ensures
        stage != VisitStage::Over ==> stages_left(following(stage, worker, download_due, upload_due, stopped))
            < stages_left(stage),
        stopped && stage != VisitStage::Start ==> following(stage, worker, download_due, upload_due, stopped)
            == VisitStage::Over,
        !stopped && (stage == VisitStage::Download || stage == VisitStage::Upload) ==> step_at(
            following(stage, worker, download_due, upload_due, stopped),
        ) == VisitStep::Rest,
{
}

/// Only due directions are tested, and the latency queue tests none.
pub proof fn law_only_due_directions_are_tested(
    stage: VisitStage,
    worker: ScheduledWorker,
    download_due: bool,
    upload_due: bool,
    stopped: bool,
)
    requires
        stage == VisitStage::MiddleRest ==> upload_due && worker == ScheduledWorker::Speed,
        stage == VisitStage::Download ==> worker == ScheduledWorker::Speed,
    ensures
        ({
            let next = following(stage, worker, download_due, upload_due, stopped);
            &&& next == VisitStage::Download ==> download_due && worker == ScheduledWorker::Speed
            &&& next == VisitStage::Upload ==> upload_due && worker == ScheduledWorker::Speed
            &&& next == VisitStage::MiddleRest ==> upload_due && worker == ScheduledWorker::Speed
        }),
{
}

} // verus!
