//! Analysis and generation core of a declarative real-time task framework:
//! a task/resource model with its well-formedness checks, the priority-ceiling
//! analysis that fixes each shared resource's lock ceiling, and the ordered
//! pass pipeline (pre-standard, standard, post) that assembles the generated
//! program's fragments over one backend capability interface.

pub mod analysis;
pub mod ast;
pub mod builder;
pub mod codegen;
pub mod error;
pub mod pipeline;
