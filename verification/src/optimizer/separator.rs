use vstd::prelude::*;
use crate::sample::search::SampleConfig;

verus! {

#[verifier::external_type_specification]
#[verifier::external_body]
pub struct ExLevel(log::Level);

/// Parameters of the separation procedure.
pub struct SeparatorConfig {
    /// Iterations without (significant) improvement after which a strike ends.
    pub iter_no_imprv_limit: usize,
    /// Consecutive strikes without improvement after which separation stops.
    pub strike_limit: usize,
    /// Number of workers that modify the layout in parallel.
    pub n_workers: usize,
    /// Level at which the progress of separation is reported.
    pub log_level: log::Level,
    /// Sampling budget of each placement search.
    pub sample_config: SampleConfig,
}

/// What one iteration of separation achieved, as measured on the total
/// loss of the layout.
#[derive(Debug, Clone, Copy, PartialEq, Eq, Structural)]
pub enum IterOutcome {
    /// No overlap is left: the layout is separated.
    Separated,
    /// The loss dropped below the lowest loss seen so far; `significant`
    /// tells whether the drop is large enough to restart the count of
    /// iterations without improvement.
    Improved { significant: bool },
    /// The loss did not drop below the lowest loss seen so far.
    Stagnant,
}

/// What the separation loop does after an iteration.
#[derive(Debug, Clone, Copy, PartialEq, Eq, Structural)]
pub enum IterAction {
    /// Keep the current layout as the result and stop separating.
    StopSeparated,
    /// Keep the current layout as the best one so far, raise the weights and
    /// go on.
    SaveBestAndContinue,
    /// Raise the weights and go on.
    Continue,
}

/// What one iteration of guided local search with a tabu list achieved, as
/// measured on the total overlap of the layout.
#[derive(Debug, Clone, Copy, PartialEq, Eq, Structural)]
pub enum GlsOutcome {
    /// No overlap is left: the layout is separated.
    Separated,
    /// The overlap dropped below the lowest overlap seen so far; `tabu`
    /// tells whether the layout reached is one of the tabu list.
    Improved { tabu: bool },
    /// The overlap did not drop below the lowest overlap seen so far.
    Stagnant,
}

/// What the guided local search does after an iteration.
#[derive(Debug, Clone, Copy, PartialEq, Eq, Structural)]
pub enum GlsAction {
    /// Return the current layout as the separated result.
    ReturnSeparated,
    /// Keep the current layout as the best one so far, raise the weights and
    /// go on.
    SaveBestAndContinue,
    /// Move an item of the layout out of the tabu region, raise the weights
    /// and go on.
    SwapTabuItemAndContinue,
    /// Raise the weights and go on.
    Continue,
}

/// Counters that steer the separation loop: strikes are rounds of
/// iterations; a strike ends after too many iterations without improvement,
/// and separation ends after too many strikes in a row that did not improve
/// on the loss at their start.
pub struct SepControl {
    pub strike_limit: usize,
    pub iter_no_imprv_limit: usize,
    pub n_strikes: usize,
    pub n_iter: usize,
    pub n_iter_no_imprv: usize,
}

impl SepControl {
    /// Fresh counters for the limits of `config`.
    pub fn new(config: &SeparatorConfig) -> (c: Self)
        ensures
            c.strike_limit == config.strike_limit,
            c.iter_no_imprv_limit == config.iter_no_imprv_limit,
            c.n_strikes == 0,
            c.n_iter == 0,
            c.n_iter_no_imprv == 0,
    {
        SepControl {
            strike_limit: config.strike_limit,
            iter_no_imprv_limit: config.iter_no_imprv_limit,
            n_strikes: 0,
            n_iter: 0,
            n_iter_no_imprv: 0,
        }
    }

    /// Whether another strike is started: fewer strikes in a row than the
    /// limit, and no request to stop.
    pub fn strike_continues(&self, killed: bool) -> (r: bool)
        ensures
            r == (self.n_strikes < self.strike_limit && !killed),
    {
        self.n_strikes < self.strike_limit && !killed
    }

    /// Starts a strike: the count of iterations without improvement restarts.
    pub fn start_strike(&mut self)
        ensures
            final(self).n_iter_no_imprv == 0,
            final(self).n_strikes == old(self).n_strikes,
            final(self).n_iter == old(self).n_iter,
            final(self).strike_limit == old(self).strike_limit,
            final(self).iter_no_imprv_limit == old(self).iter_no_imprv_limit,
    {
        self.n_iter_no_imprv = 0;
    }

    /// Whether the current strike goes on with another iteration.
    pub fn iteration_continues(&self) -> (r: bool)
        ensures
            r == (self.n_iter_no_imprv < self.iter_no_imprv_limit),
    {
        self.n_iter_no_imprv < self.iter_no_imprv_limit
    }

    /// Records the outcome of an iteration and says what to do next.
    /// A separated layout stops the loop with the counters untouched; any
    /// other outcome counts one more iteration; an improvement restarts the
    /// count of iterations without improvement when significant and leaves
    /// it otherwise; no improvement adds one to it.
    pub fn register_iteration(&mut self, outcome: IterOutcome) -> (a: IterAction)
        requires
            outcome != IterOutcome::Separated ==> old(self).n_iter < usize::MAX,
            outcome == IterOutcome::Stagnant ==> old(self).n_iter_no_imprv < usize::MAX,
        ensures
            final(self).strike_limit == old(self).strike_limit,
            final(self).iter_no_imprv_limit == old(self).iter_no_imprv_limit,
            final(self).n_strikes == old(self).n_strikes,
            match outcome {
                IterOutcome::Separated => {
                    &&& a == IterAction::StopSeparated
                    &&& final(self).n_iter == old(self).n_iter
                    &&& final(self).n_iter_no_imprv == old(self).n_iter_no_imprv
                },
                IterOutcome::Improved { significant } => {
                    &&& a == IterAction::SaveBestAndContinue
                    &&& final(self).n_iter == old(self).n_iter + 1
                    &&& final(self).n_iter_no_imprv == if significant {
                        0
                    } else {
                        old(self).n_iter_no_imprv as int
                    }
                },
                IterOutcome::Stagnant => {
                    &&& a == IterAction::Continue
                    &&& final(self).n_iter == old(self).n_iter + 1
                    &&& final(self).n_iter_no_imprv == old(self).n_iter_no_imprv + 1
                },
            },
    {
        match outcome {
            IterOutcome::Separated => IterAction::StopSeparated,
            IterOutcome::Improved { significant } => {
                if significant {
                    self.n_iter_no_imprv = 0;
                }
                self.n_iter = self.n_iter + 1;
                IterAction::SaveBestAndContinue
            },
            IterOutcome::Stagnant => {
                self.n_iter_no_imprv = self.n_iter_no_imprv + 1;
                self.n_iter = self.n_iter + 1;
                IterAction::Continue
            },
        }
    }

    /// Records the outcome of an iteration of guided local search and says
    /// what to do next. A separated layout is returned with the counters
    /// untouched; any other outcome counts one more iteration; an improvement
    /// to a layout that is not tabu is kept and restarts the count of
    /// iterations without improvement; one to a tabu layout swaps an item and
    /// leaves that count; no improvement adds one to it.
    pub fn register_gls_iteration(&mut self, outcome: GlsOutcome) -> (a: GlsAction)
        requires
            outcome != GlsOutcome::Separated ==> old(self).n_iter < usize::MAX,
            outcome == GlsOutcome::Stagnant ==> old(self).n_iter_no_imprv < usize::MAX,
        ensures
            final(self).strike_limit == old(self).strike_limit,
            final(self).iter_no_imprv_limit == old(self).iter_no_imprv_limit,
            final(self).n_strikes == old(self).n_strikes,
            match outcome {
                GlsOutcome::Separated => {
                    &&& a == GlsAction::ReturnSeparated
                    &&& final(self).n_iter == old(self).n_iter
                    &&& final(self).n_iter_no_imprv == old(self).n_iter_no_imprv
                },
                GlsOutcome::Improved { tabu } => {
                    &&& a == if tabu {
                        GlsAction::SwapTabuItemAndContinue
                    } else {
                        GlsAction::SaveBestAndContinue
                    }
                    &&& final(self).n_iter == old(self).n_iter + 1
                    &&& final(self).n_iter_no_imprv == if tabu {
                        old(self).n_iter_no_imprv as int
                    } else {
                        0
                    }
                },
                GlsOutcome::Stagnant => {
                    &&& a == GlsAction::Continue
                    &&& final(self).n_iter == old(self).n_iter + 1
                    &&& final(self).n_iter_no_imprv == old(self).n_iter_no_imprv + 1
                },
            },
    {
        match outcome {
            GlsOutcome::Separated => GlsAction::ReturnSeparated,
            GlsOutcome::Improved { tabu } => {
                self.n_iter = self.n_iter + 1;
                if tabu {
                    GlsAction::SwapTabuItemAndContinue
                } else {
                    self.n_iter_no_imprv = 0;
                    GlsAction::SaveBestAndContinue
                }
            },
            GlsOutcome::Stagnant => {
                self.n_iter_no_imprv = self.n_iter_no_imprv + 1;
                self.n_iter = self.n_iter + 1;
                GlsAction::Continue
            },
        }
    }

    /// Ends a strike: a strike that improved on the loss at its start resets
    /// the count of strikes in a row, any other strike adds one to it.
    pub fn end_strike(&mut self, improved: bool)
        requires
            !improved ==> old(self).n_strikes < usize::MAX,
        ensures
            final(self).n_strikes == if improved { 0 } else { old(self).n_strikes + 1 },
            final(self).n_iter == old(self).n_iter,
            final(self).n_iter_no_imprv == old(self).n_iter_no_imprv,
            final(self).strike_limit == old(self).strike_limit,
            final(self).iter_no_imprv_limit == old(self).iter_no_imprv_limit,
    {
        if improved {
            self.n_strikes = 0;
        } else {
            self.n_strikes = self.n_strikes + 1;
        }
    }
}

} // verus!
