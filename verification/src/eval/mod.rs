pub mod custom_cde;
