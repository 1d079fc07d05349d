//! The jumps: to a label, through a variable, and back to a caller.

use vstd::prelude::*;
use crate::error::AsmError;
use crate::template::{result_of, Emission, Template, TemplateView};

verus! {

/// A transfer of control.
#[derive(Debug, PartialEq, Eq)]
pub enum Jumps {
    /// A jump to a label.
    JumpLabel(String),
    /// A jump to the address that a variable holds.
    JumpVariable(String),
    /// The return from the function of this name: a jump to the address that
    /// its return cell holds.
    JumpFuncEnd(String),
}

/// `jump('label_<label>)`.
pub open spec fn jump_text(label: Seq<char>) -> Seq<char> {
    "jump('label_"@ + label + ")"@
}

/// `'var_<name> ~+3 ~+2 0 earasable`: copies the variable into the target
/// of the jump that follows it.
pub open spec fn jump_variable_text(name: Seq<char>) -> Seq<char> {
    "'var_"@ + name + " ~+3 ~+2 0 earasable"@
}

/// `'<function>_cb ~+3 ~+2 0 earasable`: copies the function's return cell
/// into the target of the jump that follows it.
pub open spec fn return_text(function: Seq<char>) -> Seq<char> {
    "'"@ + function + "_cb ~+3 ~+2 0 earasable"@
}

impl Jumps {
    /// What applying the instruction to a template leads to.
    pub open spec fn effect(&self, t: TemplateView) -> Emission {
        match self {
            Jumps::JumpLabel(label) => t.emit_code(jump_text(label@)),
            Jumps::JumpVariable(name) => t.emit_code(jump_variable_text(name@)),
            Jumps::JumpFuncEnd(function) => t.emit_code(return_text(function@)),
        }
    }

    /// Appends the jump to the code.
    pub fn apply(&self, template: &mut Template) -> (r: Result<(), AsmError>)
        ensures
            final(template)@ == self.effect(old(template)@).template,
            r == result_of(self.effect(old(template)@).error),
    {
        match self {
            Jumps::JumpLabel(label) => {
                let mut text = String::from_str("jump('label_");
                text.append(label.as_str());
                text.append(")");
                template.add_code(text)
            },
            Jumps::JumpVariable(name) => {
                let mut text = String::from_str("'var_");
                text.append(name.as_str());
                text.append(" ~+3 ~+2 0 earasable");
                template.add_code(text)
            },
            Jumps::JumpFuncEnd(function) => {
                let mut text = String::from_str("'");
                text.append(function.as_str());
                text.append("_cb ~+3 ~+2 0 earasable");
                template.add_code(text)
            },
        }
    }
}

} // verus!
