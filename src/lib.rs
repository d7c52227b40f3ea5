pub mod ast;
pub mod bignum;
pub mod dimension;
pub mod elimination;
pub mod literal;
pub mod program;
pub mod propagation;
pub mod report;
pub mod table;
