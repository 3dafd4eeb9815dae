//! The schedulers of the pipeline's three stages.

pub mod adaptive;
pub mod cedf;
pub mod completion;
pub mod cost;
pub mod edf;
pub mod egress_drr;
pub mod gedf;
pub mod gedf_vd;
pub mod ingress_drr;
pub mod intake;
pub mod latency;
pub mod mc_edf_elastic;
pub mod multi_worker_edf;
pub mod output;
pub mod run_queue;
pub mod sequence;
pub mod single_cpu_edf;
pub mod waiting;
pub mod worker_queue;
