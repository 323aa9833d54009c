//! The work-packet scheduler: work buckets, and the workers that take packets from them.

pub mod queues;
pub mod work_bucket;
pub mod worker;
