pub mod sequent;
pub mod unification;
