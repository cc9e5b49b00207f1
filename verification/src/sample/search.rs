use vstd::prelude::*;

verus! {

/// How many samples a placement search draws: uniformly over the whole bin,
/// focussed around the current position, and how many of the best samples
/// are refined by coordinate descent.
#[derive(Debug, Clone, Copy, PartialEq, Eq)]
pub struct SampleConfig {
    pub n_bin_samples: usize,
    pub n_focussed_samples: usize,
    pub n_coord_descents: usize,
}

/// Sampling budget of one placement search (the same three counts as
/// [`SampleConfig`]).
#[derive(Debug, Clone, Copy, PartialEq, Eq)]
pub struct SearchConfig {
    pub n_bin_samples: usize,
    pub n_focussed_samples: usize,
    pub n_coord_descents: usize,
}

/// Sampling budget for an item: an item on jump cooldown spends all uniform
/// samples around its current position; any other item splits them evenly
/// between the whole bin and its surroundings.
pub fn generate_search_config(on_jump_cooldown: bool, n_uniform_samples: usize, n_coord_descents: usize) -> (c: SearchConfig)
    ensures
        c.n_coord_descents == n_coord_descents,
        on_jump_cooldown ==> c.n_bin_samples == 0 && c.n_focussed_samples == n_uniform_samples,
        !on_jump_cooldown ==> c.n_bin_samples == n_uniform_samples / 2 && c.n_focussed_samples
            == n_uniform_samples / 2,
{
    if on_jump_cooldown {
        SearchConfig { n_bin_samples: 0, n_focussed_samples: n_uniform_samples, n_coord_descents }
    } else {
        SearchConfig {
            n_bin_samples: n_uniform_samples / 2,
            n_focussed_samples: n_uniform_samples / 2,
            n_coord_descents,
        }
    }
}

} // verus!
