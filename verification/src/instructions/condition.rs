//! The conditional jump.

use vstd::prelude::*;
use crate::error::AsmError;
use crate::template::{result_of, Emission, Template, TemplateView};

verus! {

/// A jump that is taken where a cell holds zero.
#[derive(Debug, PartialEq, Eq)]
pub enum Condition {
    /// The tested variable and the label jumped to.
    If0(String, String),
}

/// `if_0('var_<variable> 'label_<label>)`.
pub open spec fn if_zero_text(variable: Seq<char>, label: Seq<char>) -> Seq<char> {
    "if_0('var_"@ + variable + " 'label_"@ + label + ")"@
}

impl Condition {
    /// What applying the instruction to a template leads to.
    pub open spec fn effect(&self, t: TemplateView) -> Emission {
        match self {
            Condition::If0(variable, label) => t.emit_code(if_zero_text(variable@, label@)),
        }
    }

    /// Appends the jump to the code.
    pub fn apply(&self, template: &mut Template) -> (r: Result<(), AsmError>)
        ensures
            final(template)@ == self.effect(old(template)@).template,
            r == result_of(self.effect(old(template)@).error),
    {
        match self {
            Condition::If0(variable, label) => {
                let mut text = String::from_str("if_0('var_");
                text.append(variable.as_str());
                text.append(" 'label_");
                text.append(label.as_str());
                text.append(")");
                template.add_code(text)
            },
        }
    }
}

} // verus!
