pub mod arith;
pub mod fraction;
