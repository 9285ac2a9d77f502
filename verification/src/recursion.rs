//! The settings of the recursion that the bundle header records.

use crate::network::NetworkConfig;
use vstd::prelude::*;

verus! {

/// How the shared network is applied: latent length, cycle counts, puzzle table and halting.
#[derive(Debug, Clone, Copy, PartialEq, Eq, Structural)]
pub struct TrmConfig {
    pub z_seq: usize,
    pub n_l_cycles: usize,
    pub n_sup: usize,
    pub max_puzzles: usize,
    pub use_learned_halt_head: bool,
    pub use_deq: bool,
}

/// The two configurations a model is built from.
#[derive(Debug, Clone, Copy)]
pub struct ModelConfig<F> {
    pub net_cfg: NetworkConfig<F>,
    pub trm_cfg: TrmConfig,
}

} // verus!
