//! The records of the tracking store.

use vstd::prelude::*;
use crate::mlflow::double::Double;
use crate::text::chars::copied;
use crate::text::map::TextMap;

verus! {

#[derive(Clone, Copy, Debug, PartialEq, Eq, Structural)]
pub enum ExperimentStage {
    Active,
    Deleted,
}

#[derive(Clone, Copy, Debug, PartialEq, Eq, Structural)]
pub enum RunLifecycle {
    Active,
    Deleted,
}

#[derive(Clone, Copy, Debug, PartialEq, Eq, Structural)]
pub enum RunStatus {
    Running,
    Finished,
    Failed,
    Killed,
}

impl RunStatus {
    pub open spec fn terminal(self) -> bool {
        !(self is Running)
    }

    /// Whether a run in this status takes no more parameters and metrics.
    pub fn is_terminal(&self) -> (r: bool)
        ensures
            r == self.terminal(),
    {
        match self {
            RunStatus::Running => false,
            _ => true,
        }
    }
}

#[derive(Debug)]
pub struct ExperimentRecord {
    pub experiment_id: u64,
    pub name: String,
    pub artifact_location: Option<String>,
    pub tags: TextMap<String>,
    pub stage: ExperimentStage,
    pub creation_time_ms: i64,
    pub last_update_time_ms: i64,
}

/// One sample of a metric.
#[derive(Debug)]
pub struct MetricPoint {
    pub key: String,
    pub value: Double,
    pub timestamp_ms: i64,
    pub step: i64,
}

pub struct PointModel {
    pub key: Seq<char>,
    pub value: Double,
    pub timestamp_ms: i64,
    pub step: i64,
}

impl View for MetricPoint {
    type V = PointModel;

    open spec fn view(&self) -> PointModel {
        PointModel {
            key: self.key@,
            value: self.value,
            timestamp_ms: self.timestamp_ms,
            step: self.step,
        }
    }
}

pub fn copied_point(p: &MetricPoint) -> (r: MetricPoint)
    ensures
        r@ == p@,
{
    MetricPoint {
        key: copied(&p.key),
        value: p.value,
        timestamp_ms: p.timestamp_ms,
        step: p.step,
    }
}

#[derive(Debug)]
pub struct ModelOutputRef {
    pub model_id: String,
    pub step: i64,
}

#[derive(Debug)]
pub struct RunRecord {
    pub run_id: String,
    pub experiment_id: u64,
    pub run_name: Option<String>,
    pub user_id: Option<String>,
    pub lifecycle: RunLifecycle,
    pub status: RunStatus,
    pub start_time_ms: i64,
    pub end_time_ms: Option<i64>,
    pub params: TextMap<String>,
    /// The sample that stands for each metric.
    pub latest_metrics: TextMap<MetricPoint>,
    pub tags: TextMap<String>,
    pub model_inputs: Vec<String>,
    pub model_outputs: Vec<ModelOutputRef>,
}

/// An assessment of a trace; what it holds beside its id is opaque.
#[derive(Debug)]
pub struct AssessmentRecord {
    pub assessment_id: String,
    pub payload: String,
}

#[derive(Debug)]
pub struct TraceRecord {
    pub trace_id: String,
    pub experiment_id: u64,
    pub request_time_ms: i64,
    /// The name of the state, in capitals.
    pub state: String,
    pub tags: TextMap<String>,
    pub assessments: Vec<AssessmentRecord>,
}

#[derive(Clone, Copy, Debug, PartialEq, Eq, Structural)]
pub enum LoggedModelStatus {
    Pending,
    Ready,
    UploadFailed,
}

#[derive(Debug)]
pub struct LoggedModelRecord {
    pub model_id: String,
    pub experiment_id: u64,
    pub name: String,
    pub status: LoggedModelStatus,
    pub lifecycle: RunLifecycle,
    pub creation_time_ms: i64,
    pub last_updated_time_ms: i64,
    pub params: TextMap<String>,
    pub tags: TextMap<String>,
}

} // verus!
