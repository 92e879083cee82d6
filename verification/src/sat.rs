pub mod clauses;
pub mod dimacs;
pub mod dp;
pub mod models;
