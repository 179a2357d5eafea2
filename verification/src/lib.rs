//! The object model of a small sandboxed Python interpreter: values, the
//! heap they live in, and the built-in types that work on them.

pub mod arg_binding;
pub mod args;
pub mod arith;
pub mod bigint;
pub mod calendar;
pub mod call;
pub mod decimal;
pub mod exception;
pub mod float;
pub mod heap;
pub mod intern;
pub mod laws;
pub mod order;
pub mod outcome;
pub mod regex;
pub mod regex_bounds;
pub mod release;
pub mod text;
pub mod types;
pub mod utf8;
pub mod value;
pub mod value_add;
pub mod value_attr;
pub mod value_bits;
pub mod value_contains;
pub mod value_div;
pub mod value_eq;
pub mod value_hash;
pub mod value_iadd;
pub mod value_id;
pub mod value_instance;
pub mod value_int;
pub mod value_item;
pub mod value_len;
pub mod value_mul;
pub mod value_order;
pub mod value_pow;
pub mod value_repr;
pub mod value_type;
pub mod value_with;
pub mod visited;
pub mod vm;

pub use crate::exception::{ExcType, RunError, RunResult};
