//! Moment slabs of the Adam optimiser.
use vstd::prelude::*;

use crate::slab::{push_zeros, swap_remove_words};
#[allow(unused_imports)]
use crate::slab::{range_swap_removed, zeros};

verus! {

/// Hyperparameters, as float bit patterns.
#[derive(Clone, Copy, Debug, PartialEq, Eq, Structural)]
pub struct AdamConfig {
    pub lr: u32,
    pub beta1: u32,
    pub beta2: u32,
    pub eps: u32,
}

impl Default for AdamConfig {
    /// `lr = 1.6e-4`, `beta1 = 0.9`, `beta2 = 0.999`, `eps = 1e-15`.
    fn default() -> (cfg: Self)
        ensures
            cfg == (AdamConfig {
                lr: 0x3927_c5ac,
                beta1: 0x3f66_6666,
                beta2: 0x3f7f_be77,
                eps: 0x2690_1d7d,
            }),
    {
        AdamConfig { lr: 0x3927_c5ac, beta1: 0x3f66_6666, beta2: 0x3f7f_be77, eps: 0x2690_1d7d }
    }
}

/// First and second moments of one flat parameter slab.
pub struct AdamState {
    pub config: AdamConfig,
    /// Number of steps taken.
    pub t: u64,
    pub m: Vec<u32>,
    pub v: Vec<u32>,
}

impl AdamState {
    /// Both moments cover the same parameters.
    pub open spec fn wf(self) -> bool {
        self.m.len() == self.v.len()
    }

    /// Zero moments for `n_params` parameters.
    pub fn new(config: AdamConfig, n_params: usize) -> (s: Self)
        ensures
            s.wf(),
            s.config == config,
            s.t == 0,
            s.m@ == zeros(n_params as nat),
            s.v@ == zeros(n_params as nat),
    {
        let mut m: Vec<u32> = Vec::new();
        let mut v: Vec<u32> = Vec::new();
        push_zeros(&mut m, n_params);
        push_zeros(&mut v, n_params);
        assert(m@ =~= zeros(n_params as nat));
        assert(v@ =~= zeros(n_params as nat));
        AdamState { config, t: 0, m, v }
    }

    /// Appends zero moments for new parameters.
    pub fn grow(&mut self, additional_params: usize)
        requires
            old(self).wf(),
        ensures
            final(self).wf(),
            final(self).config == old(self).config,
            final(self).t == old(self).t,
            final(self).m@ == old(self).m@ + zeros(additional_params as nat),
            final(self).v@ == old(self).v@ + zeros(additional_params as nat),
    {
        push_zeros(&mut self.m, additional_params);
        push_zeros(&mut self.v, additional_params);
    }

    /// Removes the `n_params` moments from `start` on; moments from the end take
    /// their places, and every other one stays.
    pub fn swap_remove_range(&mut self, start: usize, n_params: usize)
        requires
            old(self).wf(),
            start + n_params <= old(self).m.len(),
        ensures
            final(self).wf(),
            final(self).config == old(self).config,
            final(self).t == old(self).t,
            final(self).m@ == range_swap_removed(old(self).m@, start as int, n_params as int),
            final(self).v@ == range_swap_removed(old(self).v@, start as int, n_params as int),
    {
        swap_remove_words(&mut self.m, start, n_params);
        swap_remove_words(&mut self.v, start, n_params);
    }
}

} // verus!
