//! Download jobs: their states, validation, retry policy and recovery.

pub mod dash;
pub mod manifest;
pub mod model;
pub mod pipeline;
pub mod proxy;
pub mod recovery;
pub mod repository;
pub mod retry;
pub mod worker;

pub use model::{
    can_transition, DownloadJob, JobEvent, JobEventKind, JobId, JobListCursor, JobProgress,
    JobRepositoryError, JobState, NewJob,
};
pub use retry::{
    backoff_delay, classify_catalog_error, may_retry, FailureClass, MAX_AUTOMATIC_ATTEMPTS,
};
