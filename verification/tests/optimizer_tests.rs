use sparrow::optimizer::separator::{GlsAction, GlsOutcome, IterAction, IterOutcome, SepControl, SeparatorConfig};
use sparrow::optimizer::solution_pool::SolutionPool;
use sparrow::optimizer::worker::SepStats;
use sparrow::sample::search::SampleConfig;

fn config() -> SeparatorConfig {
    SeparatorConfig {
        iter_no_imprv_limit: 2,
        strike_limit: 3,
        n_workers: 2,
        log_level: log::Level::Info,
        sample_config: SampleConfig { n_bin_samples: 50, n_focussed_samples: 25, n_coord_descents: 3 },
    }
}

#[test]
fn sep_stats_add_assign_and_sum() {
    let mut a = SepStats { total_moves: 1, total_evals: 10 };
    a.add_assign(SepStats { total_moves: 2, total_evals: 5 });
    assert_eq!(a, SepStats { total_moves: 3, total_evals: 15 });
    let s = SepStats::sum(vec![a, SepStats { total_moves: 4, total_evals: 1 }, SepStats { total_moves: 0, total_evals: 0 }]);
    assert_eq!(s, SepStats { total_moves: 7, total_evals: 16 });
    assert_eq!(SepStats::sum(vec![]), SepStats { total_moves: 0, total_evals: 0 });
}

#[test]
fn sep_control_counts_stagnant_iterations_until_the_limit() {
    let mut c = SepControl::new(&config());
    assert!(c.strike_continues(false));
    assert!(!c.strike_continues(true));
    c.start_strike();
    assert!(c.iteration_continues());
    assert_eq!(c.register_iteration(IterOutcome::Stagnant), IterAction::Continue);
    assert!(c.iteration_continues());
    assert_eq!(c.register_iteration(IterOutcome::Improved { significant: false }), IterAction::SaveBestAndContinue);
    assert_eq!(c.n_iter_no_imprv, 1);
    assert_eq!(c.register_iteration(IterOutcome::Stagnant), IterAction::Continue);
    assert!(!c.iteration_continues());
    assert_eq!(c.n_iter, 3);
}

#[test]
fn sep_control_significant_improvement_restarts_count() {
    let mut c = SepControl::new(&config());
    c.start_strike();
    c.register_iteration(IterOutcome::Stagnant);
    assert_eq!(c.register_iteration(IterOutcome::Improved { significant: true }), IterAction::SaveBestAndContinue);
    assert_eq!(c.n_iter_no_imprv, 0);
    assert_eq!(c.n_iter, 2);
}

#[test]
fn sep_control_stops_when_separated() {
    let mut c = SepControl::new(&config());
    c.start_strike();
    c.register_iteration(IterOutcome::Stagnant);
    assert_eq!(c.register_iteration(IterOutcome::Separated), IterAction::StopSeparated);
    assert_eq!(c.n_iter, 1);
    assert_eq!(c.n_iter_no_imprv, 1);
}

#[test]
fn sep_control_strikes_in_a_row_end_separation() {
    let mut c = SepControl::new(&config());
    c.end_strike(false);
    c.end_strike(false);
    assert!(c.strike_continues(false));
    c.end_strike(true);
    assert_eq!(c.n_strikes, 0);
    c.end_strike(false);
    c.end_strike(false);
    c.end_strike(false);
    assert_eq!(c.n_strikes, 3);
    assert!(!c.strike_continues(false));
}

#[test]
fn solution_pool_keeps_ascending_keys() {
    let mut p: SolutionPool<&str> = SolutionPool::new();
    p.insert("c", 30);
    p.insert("a", 10);
    p.insert("b", 20);
    p.insert("b2", 20);
    assert_eq!(p.len(), 4);
    let keys: Vec<u32> = (0..p.len()).map(|i| p.get(i).1).collect();
    assert_eq!(keys, vec![10, 20, 20, 30]);
    assert_eq!(p.get(1).0, "b");
    assert_eq!(p.get(2).0, "b2");
    assert_eq!(p.clamp_index(2), 2);
    assert_eq!(p.clamp_index(17), 3);
    p.clear();
    assert_eq!(p.len(), 0);
}

#[test]
fn solution_pool_orders_float_losses_by_bits() {
    let mut p: SolutionPool<usize> = SolutionPool::new();
    let losses = [3.5f32, 0.25, 12.0, 1.0];
    for (i, l) in losses.iter().enumerate() {
        p.insert(i, l.to_bits());
    }
    let order: Vec<usize> = (0..p.len()).map(|i| p.get(i).0).collect();
    assert_eq!(order, vec![1, 3, 0, 2]);
}

#[test]
fn gls_step_saves_best_and_restarts_count_on_improvement() {
    let mut c = SepControl::new(&config());
    c.start_strike();
    assert_eq!(c.register_gls_iteration(GlsOutcome::Stagnant), GlsAction::Continue);
    assert_eq!((c.n_iter, c.n_iter_no_imprv), (1, 1));
    assert_eq!(c.register_gls_iteration(GlsOutcome::Improved { tabu: false }), GlsAction::SaveBestAndContinue);
    assert_eq!((c.n_iter, c.n_iter_no_imprv), (2, 0));
    assert!(c.iteration_continues());
}

#[test]
fn gls_step_swaps_item_on_tabu_improvement_and_keeps_count() {
    let mut c = SepControl::new(&config());
    c.start_strike();
    c.register_gls_iteration(GlsOutcome::Stagnant);
    assert_eq!(c.register_gls_iteration(GlsOutcome::Improved { tabu: true }), GlsAction::SwapTabuItemAndContinue);
    assert_eq!((c.n_iter, c.n_iter_no_imprv), (2, 1));
    assert_eq!(c.register_gls_iteration(GlsOutcome::Stagnant), GlsAction::Continue);
    assert_eq!((c.n_iter, c.n_iter_no_imprv), (3, 2));
    assert!(!c.iteration_continues());
    c.end_strike(false);
    assert_eq!(c.n_strikes, 1);
}

#[test]
fn gls_step_returns_separated_layout_with_counters_untouched() {
    let mut c = SepControl::new(&config());
    c.register_gls_iteration(GlsOutcome::Stagnant);
    assert_eq!(c.register_gls_iteration(GlsOutcome::Separated), GlsAction::ReturnSeparated);
    assert_eq!((c.n_iter, c.n_iter_no_imprv, c.n_strikes), (1, 1, 0));
}
