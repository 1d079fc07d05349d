//! Exit, increment, decrement and the instruction that does nothing.

use vstd::prelude::*;
use crate::error::AsmError;
use crate::template::{result_of, Emission, Template, TemplateView};
use crate::utils::{hex_digit, hex_text};
use crate::value::{Value, ValueView};

verus! {

/// What an instruction reads a value from: a variable or an immediate value.
#[derive(Debug, PartialEq, Eq)]
pub enum DataRef {
    Variable(String),
    RefNum(u8),
}

/// A [`DataRef`], as the contracts see it.
pub enum DataRefView {
    Variable(Seq<char>),
    RefNum(u8),
}

impl View for DataRef {
    type V = DataRefView;

    open spec fn view(&self) -> DataRefView {
        match self {
            DataRef::Variable(name) => DataRefView::Variable(name@),
            DataRef::RefNum(n) => DataRefView::RefNum(*n),
        }
    }
}

/// `'#<digit>`: an immediate value below sixteen, as one hexadecimal digit.
pub open spec fn immediate_text(n: u8) -> Seq<char> {
    "'#"@ + seq![hex_digit(n as int)]
}

/// `'var_<name>`: the cell of a variable.
pub open spec fn variable_text(name: Seq<char>) -> Seq<char> {
    "'var_"@ + name
}

/// The text of a source: the cell of a variable, or an immediate value.
pub open spec fn data_ref_text(d: DataRefView) -> Seq<char> {
    match d {
        DataRefView::Variable(name) => variable_text(name),
        DataRefView::RefNum(n) => immediate_text(n),
    }
}

/// Whether a source can be written: an immediate value must be below sixteen.
pub open spec fn writable(d: DataRefView) -> bool {
    d matches DataRefView::RefNum(n) ==> n < 16
}

/// The source that an operand stands for: a variable or an immediate value.
pub open spec fn data_ref_of(v: ValueView) -> Option<DataRefView> {
    match v {
        ValueView::RefNum(n) => Some(DataRefView::RefNum(n)),
        ValueView::Variable(name) => Some(DataRefView::Variable(name)),
        _ => None,
    }
}

/// The view of the result of a conversion.
pub open spec fn converted_view(r: Result<DataRef, ()>) -> Option<DataRefView> {
    match r {
        Ok(d) => Some(d@),
        Err(_) => None,
    }
}

impl DataRef {
    /// Takes a variable or an immediate value as a source; refuses a plain
    /// number and a label.
    pub fn try_from(value: Value) -> (r: Result<DataRef, ()>)
        ensures
            converted_view(r) == data_ref_of(value@),
    {
        match value {
            Value::RefNum(n) => Ok(DataRef::RefNum(n)),
            Value::Variable(name) => Ok(DataRef::Variable(name)),
            _ => Err(()),
        }
    }

    /// The text of the source.
    pub fn to_text(&self) -> (text: String)
        requires
            writable(self@),
        ensures
            text@ == data_ref_text(self@),
    {
        match self {
            DataRef::Variable(name) => {
                let mut text = String::from_str("'var_");
                text.append(name.as_str());
                text
            },
            DataRef::RefNum(n) => {
                let mut text = String::from_str("'#");
                text.append(hex_text(*n));
                text
            },
        }
    }
}

/// An instruction without a family of its own.
#[derive(Debug, PartialEq, Eq)]
pub enum GenericFunction {
    /// Ends the program with a value.
    Exit(DataRef),
    /// Adds one to a variable.
    Inc(String),
    /// Takes one from a variable.
    Dec(String),
    /// Does nothing.
    NoOp,
}

/// `exit(<source>)`.
pub open spec fn exit_text(d: DataRefView) -> Seq<char> {
    "exit("@ + data_ref_text(d) + ")"@
}

/// `inc('var_<name>)`.
pub open spec fn inc_text(name: Seq<char>) -> Seq<char> {
    "inc('var_"@ + name + ")"@
}

/// `dec('var_<name>)`.
pub open spec fn dec_text(name: Seq<char>) -> Seq<char> {
    "dec('var_"@ + name + ")"@
}

/// What an `exit` with the source `d` leads to: refused where the source is
/// an immediate value that takes more than one hexadecimal digit.
pub open spec fn exit_effect(d: DataRefView, t: TemplateView) -> Emission {
    if writable(d) {
        t.emit_code(exit_text(d))
    } else {
        Emission { template: t, error: Some(AsmError::ValueOutOfRange) }
    }
}

impl GenericFunction {
    /// What applying the instruction to a template leads to.
    pub open spec fn effect(&self, t: TemplateView) -> Emission {
        match self {
            GenericFunction::Exit(d) => exit_effect(d@, t),
            GenericFunction::Inc(name) => t.emit_code(inc_text(name@)),
            GenericFunction::Dec(name) => t.emit_code(dec_text(name@)),
            GenericFunction::NoOp => t.emit_code("no_op"@),
        }
    }

    /// Appends the instruction to the code.
    pub fn apply(&self, template: &mut Template) -> (r: Result<(), AsmError>)
        ensures
            final(template)@ == self.effect(old(template)@).template,
            r == result_of(self.effect(old(template)@).error),
    {
        match self {
            GenericFunction::Exit(d) => {
                let fits = match d {
                    DataRef::RefNum(n) => *n < 16,
                    DataRef::Variable(_) => true,
                };
                if !fits {
                    return Err(AsmError::ValueOutOfRange);
                }
                let source = d.to_text();
                let mut text = String::from_str("exit(");
                text.append(source.as_str());
                text.append(")");
                template.add_code(text)
            },
            GenericFunction::Inc(name) => {
                let mut text = String::from_str("inc('var_");
                text.append(name.as_str());
                text.append(")");
                template.add_code(text)
            },
            GenericFunction::Dec(name) => {
                let mut text = String::from_str("dec('var_");
                text.append(name.as_str());
                text.append(")");
                template.add_code(text)
            },
            GenericFunction::NoOp => template.add_code(String::from_str("no_op")),
        }
    }
}

} // verus!
