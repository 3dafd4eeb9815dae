//! Verified core of a three-stage packet pipeline: deficit round robin on the way in, earliest
//! deadline first in the middle, strict priority with per-class round robin on the way out.

pub mod buffer_pool;
pub mod channel;
pub mod cli;
pub mod drr_scheduler;
pub mod edf_scheduler;
pub mod event_channel;
pub mod heap;
pub mod history;
pub mod math;
pub mod metrics;
pub mod packet;
pub mod pipeline;
pub mod priority;
pub mod queue;
pub mod scheduler;
pub mod statistics;
pub mod threading;
pub mod time;

pub use pipeline::{
    CoreAssignment, EdfSchedulerConfig, IngressSchedulerConfig, Pipeline, PipelineConfig,
    QueueConfig, SchedulerKind, SocketConfig,
};
