//! The definition of cells and the stores into them.

use vstd::prelude::*;
use crate::error::AsmError;
use crate::instructions::generic_functions::{
    data_ref_text, immediate_text, writable, DataRef, DataRefView,
};
use crate::template::{result_of, Emission, Template, TemplateView};
use crate::text::{contains, decimal, decimal_string};
use crate::utils::hex_text;

verus! {

/// The name of the section that holds the cells of the variables.
pub open spec fn var_def() -> Seq<char> {
    "VAR_DEF"@
}

/// The name of the section that holds the functions, with the cells of
/// their parameters.
pub open spec fn function_def() -> Seq<char> {
    "FUNCTION_DEF"@
}

/// The definition of a cell.
#[derive(Debug, PartialEq, Eq)]
pub enum VariableDef {
    /// A variable and the size it is declared with.
    NumberVariable(String, u8),
    /// The cell of a parameter: the function's name and the parameter's
    /// number, counted from one.
    FunctionVariable(String, u8),
}

/// `'var_<name>:<size>`.
pub open spec fn variable_def_text(name: Seq<char>, size: u8) -> Seq<char> {
    "'var_"@ + name + ":"@ + decimal(size as nat)
}

/// `<function>_in<number>`: the name of a parameter's cell.
pub open spec fn parameter_name(function: Seq<char>, number: nat) -> Seq<char> {
    function + "_in"@ + decimal(number)
}

/// `'var_<function>_in<number>:0`.
pub open spec fn parameter_def_text(function: Seq<char>, number: u8) -> Seq<char> {
    "'var_"@ + function + "_in"@ + decimal(number as nat) + ":0"@
}

impl VariableDef {
    /// What applying the instruction to a template leads to.
    pub open spec fn effect(&self, t: TemplateView) -> Emission {
        match self {
            VariableDef::NumberVariable(name, size) => t.emit(
                var_def(),
                variable_def_text(name@, *size),
            ),
            VariableDef::FunctionVariable(function, number) => t.emit(
                function_def(),
                parameter_def_text(function@, *number),
            ),
        }
    }

    /// Appends the definition of a variable to the section of the variables,
    /// that of a parameter's cell to the section of the functions.
    pub fn apply(&self, template: &mut Template) -> (r: Result<(), AsmError>)
        ensures
            final(template)@ == self.effect(old(template)@).template,
            r == result_of(self.effect(old(template)@).error),
    {
        match self {
            VariableDef::NumberVariable(name, size) => {
                let numeral = decimal_string(*size as usize);
                let mut text = String::from_str("'var_");
                text.append(name.as_str());
                text.append(":");
                text.append(numeral.as_str());
                template.add_section("VAR_DEF", text)
            },
            VariableDef::FunctionVariable(function, number) => {
                let numeral = decimal_string(*number as usize);
                let mut text = String::from_str("'var_");
                text.append(function.as_str());
                text.append("_in");
                text.append(numeral.as_str());
                text.append(":0");
                template.add_section("FUNCTION_DEF", text)
            },
        }
    }
}

/// A store into a cell.
#[derive(Debug, PartialEq, Eq)]
pub enum VariableSet {
    /// The target variable and the immediate value stored.
    Number(String, u8),
    /// The target variable and the variable copied.
    Variable(String, String),
    /// The target variable and the label whose address is stored.
    Label(String, String),
    /// The called function, the number of its parameter, counted from one,
    /// and the argument stored into that parameter's cell.
    FunctionInput(String, u8, DataRef),
}

/// `'#<digit> 'var_<target>`.
pub open spec fn store_number_text(target: Seq<char>, value: u8) -> Seq<char> {
    immediate_text(value) + " 'var_"@ + target
}

/// `'var_<source> 'var_<target>`.
pub open spec fn store_variable_text(target: Seq<char>, source: Seq<char>) -> Seq<char> {
    "'var_"@ + source + " 'var_"@ + target
}

/// `'#var_label_<label>:'label_<label>`, with a line feed: the cell that
/// holds the address of a label.
pub open spec fn label_binding_text(label: Seq<char>) -> Seq<char> {
    "'#var_label_"@ + label + ":'label_"@ + label + "\n"@
}

/// `'#var_label_<label> 'var_<target>`, with a line feed.
pub open spec fn store_label_text(target: Seq<char>, label: Seq<char>) -> Seq<char> {
    "'#var_label_"@ + label + " 'var_"@ + target + "\n"@
}

/// `<source> 'var_<function>_in<number>`, with a line feed.
pub open spec fn store_input_text(function: Seq<char>, number: u8, source: DataRefView) -> Seq<
    char,
> {
    data_ref_text(source) + " 'var_"@ + function + "_in"@ + decimal(number as nat) + "\n"@
}

/// What storing the immediate value `value` into `target` leads to: refused
/// where the value takes more than one hexadecimal digit.
pub open spec fn store_number_effect(target: Seq<char>, value: u8, t: TemplateView) -> Emission {
    if value < 16 {
        t.emit_code(store_number_text(target, value))
    } else {
        Emission { template: t, error: Some(AsmError::ValueOutOfRange) }
    }
}

/// What storing the address of `label` into `target` leads to. The cell that
/// holds the address is defined unless the section of the cells holds its
/// definition already.
pub open spec fn store_label_effect(
    target: Seq<char>,
    label: Seq<char>,
    t: TemplateView,
) -> Emission {
    let bound = if contains(t.section_text(var_def()), label_binding_text(label)) {
        Emission { template: t, error: None }
    } else {
        t.emit(var_def(), label_binding_text(label))
    };
    bound.then_emit_code(store_label_text(target, label))
}

/// What storing an argument into a parameter's cell leads to: refused where
/// the argument is an immediate value that takes more than one hexadecimal
/// digit.
pub open spec fn store_input_effect(
    function: Seq<char>,
    number: u8,
    source: DataRefView,
    t: TemplateView,
) -> Emission {
    if writable(source) {
        t.emit_code(store_input_text(function, number, source))
    } else {
        Emission { template: t, error: Some(AsmError::ValueOutOfRange) }
    }
}

impl VariableSet {
    /// What applying the instruction to a template leads to.
    pub open spec fn effect(&self, t: TemplateView) -> Emission {
        match self {
            VariableSet::Number(target, value) => store_number_effect(target@, *value, t),
            VariableSet::Variable(target, source) => t.emit_code(
                store_variable_text(target@, source@),
            ),
            VariableSet::Label(target, label) => store_label_effect(target@, label@, t),
            VariableSet::FunctionInput(function, number, source) => store_input_effect(
                function@,
                *number,
                source@,
                t,
            ),
        }
    }

    /// Appends the store to the code.
    pub fn apply(&self, template: &mut Template) -> (r: Result<(), AsmError>)
        ensures
            final(template)@ == self.effect(old(template)@).template,
            r == result_of(self.effect(old(template)@).error),
    {
        match self {
            VariableSet::Number(target, value) => {
                if *value >= 16 {
                    return Err(AsmError::ValueOutOfRange);
                }
                let mut text = String::from_str("'#");
                text.append(hex_text(*value));
                text.append(" 'var_");
                text.append(target.as_str());
                template.add_code(text)
            },
            VariableSet::Variable(target, source) => {
                let mut text = String::from_str("'var_");
                text.append(source.as_str());
                text.append(" 'var_");
                text.append(target.as_str());
                template.add_code(text)
            },
            VariableSet::Label(target, label) => {
                let mut binding = String::from_str("'#var_label_");
                binding.append(label.as_str());
                binding.append(":'label_");
                binding.append(label.as_str());
                binding.append("\n");
                if !template.section_contains("VAR_DEF", binding.as_str()) {
                    match template.add_section("VAR_DEF", binding) {
                        Err(e) => {
                            return Err(e);
                        },
                        Ok(_) => {},
                    }
                }
                let mut text = String::from_str("'#var_label_");
                text.append(label.as_str());
                text.append(" 'var_");
                text.append(target.as_str());
                text.append("\n");
                template.add_code(text)
            },
            VariableSet::FunctionInput(function, number, source) => {
                let fits = match source {
                    DataRef::RefNum(n) => *n < 16,
                    DataRef::Variable(_) => true,
                };
                if !fits {
                    return Err(AsmError::ValueOutOfRange);
                }
                let numeral = decimal_string(*number as usize);
                let mut text = source.to_text();
                text.append(" 'var_");
                text.append(function.as_str());
                text.append("_in");
                text.append(numeral.as_str());
                text.append("\n");
                template.add_code(text)
            },
        }
    }
}

} // verus!
