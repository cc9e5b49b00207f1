pub mod tabu;
