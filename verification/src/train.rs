//! Training: losses, the optimizer, checkpoints and the training loop.

pub mod batch_laws;
pub mod checkpoint;
pub mod course_laws;
pub mod eval_laws;
pub mod gradient;
pub mod loss;
pub mod loss_laws;
pub mod optimizer;
pub mod schedule_laws;
pub mod session;
pub mod step_laws;
pub mod trainer;
