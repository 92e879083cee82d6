pub mod ast;
pub mod free;
pub mod fresh;
pub mod shape;
pub mod subst;
pub mod nnf;
pub mod pnf;
pub mod skolem;
pub mod ground;
pub mod cnf;
pub mod occurrences;
pub mod parser;
pub mod fmt;
pub mod semantics;
