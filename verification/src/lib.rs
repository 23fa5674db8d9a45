//! A minimal stack-based scripting language: a tokenizer feeding a
//! stack-machine evaluator with deferred code blocks, a flat variable
//! environment, and a small set of built-in operations.
//!
//! The operational meaning of every construct is written down once, as a
//! ghost interpreter over the machine model (`semantics`), and each
//! executable function is proved to agree with it.

pub mod machine;
pub mod parser;
pub mod semantics;
pub mod text;
pub mod value;

pub use machine::Error;
pub use machine::Vm;

pub use value::NativeOp;
pub use value::Value;
