//! TRM-Omega: the verified core of a recursive reasoning engine.

pub mod arith;
pub mod copy;
pub mod data;
pub mod data_laws;
pub mod dispatch_laws;
pub mod exact;
pub mod forward;
pub mod forward_laws;
pub mod grid;
pub mod kernel_dispatch;
pub mod kernel_laws;
pub mod kernel_ref;
pub mod mask_laws;
pub mod named;
pub mod network;
pub mod network_laws;
pub mod network_parity;
pub mod outcome;
pub mod parity;
pub mod preset;
pub mod quantize;
pub mod ratio;
pub mod recursion;
pub mod repeat;
pub mod setup;
pub mod setup_laws;
pub mod task_eval;
pub mod task_eval_laws;
pub mod tensor;
pub mod text;
pub mod text_laws;
pub mod train;
pub mod trmq10;
pub mod trmq10_laws;
pub mod wire;
