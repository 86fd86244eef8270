//! Runtime construction of parameterised SQL: literal fragments and bound
//! values are accumulated side by side, with the placeholders written for the
//! caller.

pub mod placeholder;
pub mod arguments;
pub mod builder;
