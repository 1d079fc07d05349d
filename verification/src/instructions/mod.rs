//! The emitters, one for each family of opcodes. Each turns its operands into
//! machine text and appends it to a section of the template.

pub mod condition;
pub mod generic_functions;
pub mod jumps;
pub mod label;
pub mod variables;

pub use condition::Condition;
pub use generic_functions::{DataRef, GenericFunction};
pub use jumps::Jumps;
pub use label::Label;
pub use variables::{VariableDef, VariableSet};
