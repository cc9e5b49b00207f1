use sparrow::sample::coord_descent::CDDirection;
use sparrow::sample::coord_descent::CDDirection::{E, N, NE, NW, S, SE, SW, W};
use sparrow::sample::search::{SampleConfig, SearchConfig};

#[test]
fn all_directions_lists_cardinals_then_diagonals() {
    assert_eq!(CDDirection::all_directions(), [N, E, S, W, NE, NW, SE, SW]);
}

#[test]
fn neighboring_directions_are_self_and_45_degrees_away() {
    assert_eq!(N.neighboring(), [N, NE, NW]);
    assert_eq!(E.neighboring(), [E, NE, SE]);
    assert_eq!(S.neighboring(), [S, SE, SW]);
    assert_eq!(W.neighboring(), [W, NW, SW]);
    assert_eq!(NE.neighboring(), [NE, N, E]);
    assert_eq!(NW.neighboring(), [NW, N, W]);
    assert_eq!(SW.neighboring(), [SW, S, W]);
    assert_eq!(SE.neighboring(), [SE, S, E]);
}

#[test]
fn neighborhood_is_symmetric() {
    for d in CDDirection::all_directions() {
        for e in d.neighboring() {
            assert!(e.neighboring().contains(&d));
        }
    }
}

#[test]
fn sample_configs_hold_their_counts() {
    let s = SampleConfig { n_bin_samples: 50, n_focussed_samples: 25, n_coord_descents: 3 };
    let t = SearchConfig { n_bin_samples: 1000, n_focussed_samples: 0, n_coord_descents: 3 };
    let s2 = s;
    assert_eq!(s2, s);
    assert_eq!(t.n_bin_samples, 1000);
}

use sparrow::sample::search::generate_search_config;

#[test]
fn search_config_for_item_on_cooldown_focusses_all_samples() {
    let c = generate_search_config(true, 100, 2);
    assert_eq!(c, SearchConfig { n_bin_samples: 0, n_focussed_samples: 100, n_coord_descents: 2 });
}

#[test]
fn search_config_for_free_item_splits_samples() {
    let c = generate_search_config(false, 100, 2);
    assert_eq!(c, SearchConfig { n_bin_samples: 50, n_focussed_samples: 50, n_coord_descents: 2 });
    let odd = generate_search_config(false, 7, 1);
    assert_eq!(odd.n_bin_samples, 3);
    assert_eq!(odd.n_focussed_samples, 3);
}
