pub mod fol;
pub mod prover;
pub mod sat;
pub mod text;
