//! The definition of a label.

use vstd::prelude::*;
use crate::error::AsmError;
use crate::template::{result_of, Emission, Template, TemplateView};

verus! {

/// A place in the code that jumps can name.
#[derive(Debug, PartialEq, Eq)]
pub enum Label {
    Label(String),
}

/// `'label_<label>:no_op`.
pub open spec fn label_text(label: Seq<char>) -> Seq<char> {
    "'label_"@ + label + ":no_op"@
}

impl Label {
    /// What applying the instruction to a template leads to.
    pub open spec fn effect(&self, t: TemplateView) -> Emission {
        match self {
            Label::Label(label) => t.emit_code(label_text(label@)),
        }
    }

    /// Appends the label to the code.
    pub fn apply(&self, template: &mut Template) -> (r: Result<(), AsmError>)
        ensures
            final(template)@ == self.effect(old(template)@).template,
            r == result_of(self.effect(old(template)@).error),
    {
        match self {
            Label::Label(label) => {
                let mut text = String::from_str("'label_");
                text.append(label.as_str());
                text.append(":no_op");
                template.add_code(text)
            },
        }
    }
}

} // verus!
