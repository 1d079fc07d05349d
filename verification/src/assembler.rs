//! The back end: from lines of pseudo-assembly to machine text.
//!
//! What the assembler does with one line is written down once, as a function
//! from the line, the state and the template before to the state and the
//! template after (`assembled_line`). `compile` is proved to compute exactly
//! that, and `assemble` to do so for each line of a text in turn.

use vstd::prelude::*;
use vstd::hash_map::StringHashMap;
use crate::error::AsmError;
use crate::instructions::condition::{if_zero_text, Condition};
use crate::instructions::generic_functions::{
    data_ref_of, dec_text, exit_effect, inc_text, DataRef, DataRefView, GenericFunction,
};
use crate::instructions::jumps::{jump_text, jump_variable_text, return_text, Jumps};
use crate::instructions::label::{label_text, Label};
use crate::instructions::variables::{
    function_def, parameter_def_text, parameter_name, store_input_effect,
    store_label_effect, store_number_effect, store_variable_text, var_def, variable_def_text,
    VariableDef, VariableSet,
};
use crate::template::{result_of, Emission, Template, TemplateView};
use crate::text::{
    decimal, decimal_string, lines, replace_all, replaced, same_text,
    split_lines, split_words, texts, trim, trimmed, words, chars_of,
};
use crate::value::{
    accepts_all, kind_views, lemma_kind_views, parsed_value, size_of, value_views,
    KindView, Value, ValueType, ValueView,
};

verus! {

/// The emitter that an opcode of the table stands for.
#[derive(Debug, Clone, Copy, PartialEq, Eq, Structural)]
pub enum Emitter {
    /// `label '<name>`: defines a label.
    Label,
    /// `let <var> <size>`: defines a variable.
    Let,
    /// `if_0 <var> '<label>`: jumps where the variable holds zero.
    IfZero,
    /// `set <var> <var or &n>`: stores into a variable.
    Store,
    /// `exit <var or &n>`: ends the program.
    Exit,
    /// `inc <var>`: adds one.
    Inc,
    /// `no_op`: does nothing.
    NoOp,
    /// `dec <var>`: takes one.
    Dec,
    /// `jump '<label>`: jumps.
    Jump,
    /// `jump_var <var>`: jumps to the address that the variable holds.
    JumpVar,
    /// `set_lbl <var> '<label>`: stores the address of a label.
    StoreLabel,
}

/// The function that is open, as the contracts see it.
pub struct FuncStateView {
    pub name: Seq<char>,
    pub arguments: Seq<Seq<char>>,
}

/// The assembler's state, as the contracts see it.
#[verifier::ext_equal]
pub struct StateView {
    /// The opcode table: for each opcode the kinds of its operands and its
    /// emitter.
    pub functions: Map<Seq<char>, (Seq<KindView>, Emitter)>,
    /// The closed functions, each with the number of its parameters.
    pub cythan_funcs: Map<Seq<char>, u32>,
    /// The function that is open.
    pub func_state: Option<FuncStateView>,
    /// The last call-site id that was handed out.
    pub counter: nat,
}

/// A state, a template and, where a line was refused, the reason.
pub struct Assembly {
    pub state: StateView,
    pub template: TemplateView,
    pub error: Option<AsmError>,
}

/// The kinds that take a variable or an immediate value.
pub open spec fn variable_or_ref() -> KindView {
    KindView::Or(seq![KindView::Variable, KindView::RefNum])
}

/// The opcode table that every assembly starts with.
pub open spec fn standard_table() -> Map<Seq<char>, (Seq<KindView>, Emitter)> {
    Map::<Seq<char>, (Seq<KindView>, Emitter)>::empty().insert(
        "label"@,
        (seq![KindView::Label], Emitter::Label),
    ).insert("let"@, (seq![KindView::Variable, KindView::Num], Emitter::Let)).insert(
        "if_0"@,
        (seq![KindView::Variable, KindView::Label], Emitter::IfZero),
    ).insert("set"@, (seq![KindView::Variable, variable_or_ref()], Emitter::Store)).insert(
        "exit"@,
        (seq![variable_or_ref()], Emitter::Exit),
    ).insert("inc"@, (seq![KindView::Variable], Emitter::Inc)).insert(
        "no_op"@,
        (Seq::<KindView>::empty(), Emitter::NoOp),
    ).insert("dec"@, (seq![KindView::Variable], Emitter::Dec)).insert(
        "jump"@,
        (seq![KindView::Label], Emitter::Jump),
    ).insert("jump_var"@, (seq![KindView::Variable], Emitter::JumpVar)).insert(
        "set_lbl"@,
        (seq![KindView::Variable, KindView::Label], Emitter::StoreLabel),
    )
}

impl StateView {
    /// The state before any line is read.
    pub open spec fn initial() -> StateView {
        StateView {
            functions: standard_table(),
            cythan_funcs: Map::empty(),
            func_state: None,
            counter: 0,
        }
    }

    /// This state with another counter.
    pub open spec fn with_counter(self, counter: nat) -> StateView {
        StateView { counter, ..self }
    }

    /// This state with the function `name` open.
    pub open spec fn open(self, name: Seq<char>, arguments: Seq<Seq<char>>) -> StateView {
        StateView { func_state: Some(FuncStateView { name, arguments }), ..self }
    }

    /// This state with no function open and `name` among the closed ones.
    pub open spec fn close(self, name: Seq<char>, arity: u32) -> StateView {
        StateView {
            cythan_funcs: self.cythan_funcs.insert(name, arity),
            func_state: None,
            ..self
        }
    }

    /// Whether no call-site id is left.
    pub open spec fn exhausted(self) -> bool {
        self.counter >= usize::MAX
    }
}

/// The most parameters that a function can have: their numbers are bytes,
/// counted from one.
pub const MAX_PARAMETERS: usize = 255;

/// The index of the first of the first `n` parameters that `token` refers
/// to: a token refers to a parameter where it is `$`, then the parameter's
/// name, and nothing else.
pub open spec fn parameter_index(token: Seq<char>, parameters: Seq<Seq<char>>, n: nat) -> Option<
    int,
>
    decreases n,
{
    if n == 0 || n > parameters.len() {
        None
    } else {
        match parameter_index(token, parameters, (n - 1) as nat) {
            Some(k) => Some(k),
            None => if token == "$"@ + parameters[n - 1] {
                Some(n - 1)
            } else {
                None
            },
        }
    }
}

/// A token as it is read inside the function `function`: a token that
/// refers to a parameter becomes the name of that parameter's cell, any other
/// token stays as it is.
pub open spec fn substituted_token(
    token: Seq<char>,
    function: Seq<char>,
    parameters: Seq<Seq<char>>,
) -> Seq<char> {
    match parameter_index(token, parameters, parameters.len()) {
        Some(k) => parameter_name(function, (k + 1) as nat),
        None => token,
    }
}

/// The first `n` tokens as they are read inside the function `function`.
pub open spec fn substituted_tokens(
    tokens: Seq<Seq<char>>,
    function: Seq<char>,
    parameters: Seq<Seq<char>>,
    n: nat,
) -> Seq<Seq<char>>
    decreases n,
{
    if n == 0 || n > tokens.len() {
        Seq::empty()
    } else {
        substituted_tokens(tokens, function, parameters, (n - 1) as nat).push(
            substituted_token(tokens[n - 1], function, parameters),
        )
    }
}

/// The tokens of a line as they are read: the words of the line and, inside
/// a function, each word that refers to a parameter replaced by the name of
/// the parameter's cell.
pub open spec fn read_tokens(line: Seq<char>, s: StateView) -> Seq<Seq<char>> {
    match s.func_state {
        Some(f) => substituted_tokens(words(line), f.name, f.arguments, words(line).len()),
        None => words(line),
    }
}

/// What the first `n` tokens stand for, or the first error among them.
pub open spec fn parsed_values(tokens: Seq<Seq<char>>, n: nat) -> Result<Seq<ValueView>, AsmError>
    decreases n,
{
    if n == 0 || n > tokens.len() {
        Ok(Seq::empty())
    } else {
        match parsed_values(tokens, (n - 1) as nat) {
            Err(e) => Err(e),
            Ok(values) => match parsed_value(tokens[n - 1]) {
                Err(e) => Err(e),
                Ok(v) => Ok(values.push(v)),
            },
        }
    }
}

/// A line that is refused with nothing changed.
pub open spec fn refused(s: StateView, t: TemplateView, error: AsmError) -> Assembly {
    Assembly { state: s, template: t, error: Some(error) }
}

/// A line that only emits.
pub open spec fn emitting(s: StateView, e: Emission) -> Assembly {
    Assembly { state: s, template: e.template, error: e.error }
}

/// An emitter that is refused because an operand is not of the kind it takes.
pub open spec fn mismatch(t: TemplateView) -> Emission {
    Emission { template: t, error: Some(AsmError::InvalidArgument) }
}

/// What an emitter of the table does with its operands.
pub open spec fn emitted(emitter: Emitter, values: Seq<ValueView>, t: TemplateView) -> Emission {
    match emitter {
        Emitter::Label => if values.len() >= 1 && values[0] is Label {
            t.emit_code(label_text(values[0]->Label_0))
        } else {
            mismatch(t)
        },
        Emitter::Let => if values.len() >= 2 && values[0] is Variable && values[1] is Num {
            t.emit(var_def(), variable_def_text(values[0]->Variable_0, size_of(values[1]->Num_0)))
        } else {
            mismatch(t)
        },
        Emitter::IfZero => if values.len() >= 2 && values[0] is Variable && values[1] is Label {
            t.emit_code(if_zero_text(values[0]->Variable_0, values[1]->Label_0))
        } else {
            mismatch(t)
        },
        Emitter::Store => if values.len() >= 2 && values[0] is Variable {
            match values[1] {
                ValueView::Variable(source) => t.emit_code(
                    store_variable_text(values[0]->Variable_0, source),
                ),
                ValueView::RefNum(n) => store_number_effect(values[0]->Variable_0, n, t),
                _ => mismatch(t),
            }
        } else {
            mismatch(t)
        },
        Emitter::Exit => if values.len() >= 1 && data_ref_of(values[0]) is Some {
            exit_effect(data_ref_of(values[0])->Some_0, t)
        } else {
            mismatch(t)
        },
        Emitter::Inc => if values.len() >= 1 && values[0] is Variable {
            t.emit_code(inc_text(values[0]->Variable_0))
        } else {
            mismatch(t)
        },
        Emitter::NoOp => t.emit_code("no_op"@),
        Emitter::Dec => if values.len() >= 1 && values[0] is Variable {
            t.emit_code(dec_text(values[0]->Variable_0))
        } else {
            mismatch(t)
        },
        Emitter::Jump => if values.len() >= 1 && values[0] is Label {
            t.emit_code(jump_text(values[0]->Label_0))
        } else {
            mismatch(t)
        },
        Emitter::JumpVar => if values.len() >= 1 && values[0] is Variable {
            t.emit_code(jump_variable_text(values[0]->Variable_0))
        } else {
            mismatch(t)
        },
        Emitter::StoreLabel => if values.len() >= 2 && values[0] is Variable && values[1] is Label {
            store_label_effect(values[0]->Variable_0, values[1]->Label_0, t)
        } else {
            mismatch(t)
        },
    }
}

/// `'<function>_cb:16`: the cell that holds the address to return to.
pub open spec fn return_cell_text(function: Seq<char>) -> Seq<char> {
    "'"@ + function + "_cb:16"@
}

/// `'fnstart_<function>:no_op`, with a line feed: the entry of a function.
pub open spec fn entry_text(function: Seq<char>) -> Seq<char> {
    "'fnstart_"@ + function + ":no_op\n"@
}

/// `'#global_continue_<id>:'continue_<id>`: the cell that holds the address
/// of a call site's landing pad.
pub open spec fn continuation_def_text(id: nat) -> Seq<char> {
    "'#global_continue_"@ + decimal(id) + ":'continue_"@ + decimal(id)
}

/// `'#global_continue_<id> '<function>_cb`: stores the landing pad's address
/// into the function's return cell.
pub open spec fn continuation_store_text(id: nat, function: Seq<char>) -> Seq<char> {
    "'#global_continue_"@ + decimal(id) + " '"@ + function + "_cb"@
}

/// `jump('fnstart_<function>)`: enters the function.
pub open spec fn call_jump_text(function: Seq<char>) -> Seq<char> {
    "jump('fnstart_"@ + function + ")"@
}

/// `'continue_<id>:no_op`: the landing pad of a call site.
pub open spec fn landing_text(id: nat) -> Seq<char> {
    "'continue_"@ + decimal(id) + ":no_op"@
}

/// What defining the cells of the first `n` parameters of `function` leads
/// to, after what came before.
pub open spec fn defined_parameters(function: Seq<char>, n: nat, e: Emission) -> Emission
    decreases n,
{
    if n == 0 || n > MAX_PARAMETERS {
        e
    } else {
        defined_parameters(function, (n - 1) as nat, e).then_emit(
            function_def(),
            parameter_def_text(function, n as u8),
        )
    }
}

/// What storing the first `n` arguments of a call into the cells of the
/// function's parameters leads to. A plain number or a label cannot be
/// handed over.
pub open spec fn stored_inputs(
    function: Seq<char>,
    values: Seq<ValueView>,
    n: nat,
    t: TemplateView,
) -> Emission
    decreases n,
{
    if n == 0 || n > values.len() || n > MAX_PARAMETERS {
        Emission { template: t, error: None }
    } else {
        let before = stored_inputs(function, values, (n - 1) as nat, t);
        if before.error is Some {
            before
        } else {
            match values[n - 1] {
                ValueView::RefNum(v) => store_input_effect(
                    function,
                    n as u8,
                    DataRefView::RefNum(v),
                    before.template,
                ),
                ValueView::Variable(name) => store_input_effect(
                    function,
                    n as u8,
                    DataRefView::Variable(name),
                    before.template,
                ),
                ValueView::Num(_) => Emission {
                    template: before.template,
                    error: Some(AsmError::NumberArgument),
                },
                ValueView::Label(_) => Emission {
                    template: before.template,
                    error: Some(AsmError::LabelArgument),
                },
            }
        }
    }
}

/// What `ret` leads to: the return from the open function.
pub open spec fn assembled_ret(s: StateView, t: TemplateView) -> Assembly {
    match s.func_state {
        None => refused(s, t, AsmError::OutsideFunction),
        Some(f) => emitting(s, t.emit_code(return_text(f.name))),
    }
}

/// What `func <name> <parameters...>` leads to: the code goes to the section
/// of the functions, which gets the function's return cell, its entry and a
/// cell for each parameter, and the function is open from then on.
pub open spec fn assembled_func(tokens: Seq<Seq<char>>, s: StateView, t: TemplateView) -> Assembly {
    if tokens.len() < 2 {
        refused(s, t, AsmError::MissingOpcode)
    } else {
        let name = tokens[1];
        let parameters = tokens.subrange(2, tokens.len() as int);
        if parameters.len() > MAX_PARAMETERS {
            refused(s, t, AsmError::TooManyParameters)
        } else {
            let e = defined_parameters(
                name,
                parameters.len(),
                t.with_active(function_def()).emit(
                    function_def(),
                    return_cell_text(name),
                ).then_emit_code(entry_text(name)),
            );
            if e.error is Some {
                emitting(s, e)
            } else {
                emitting(s.open(name, parameters), e)
            }
        }
    }
}

/// What `end_func` leads to: the return from the open function, which is
/// closed and can be called from then on; the code goes to the section of
/// the main code again.
pub open spec fn assembled_end_func(s: StateView, t: TemplateView) -> Assembly {
    match s.func_state {
        None => refused(s, t, AsmError::OutsideFunction),
        Some(f) => if f.arguments.len() > MAX_PARAMETERS {
            refused(s, t, AsmError::TooManyParameters)
        } else {
            let e = t.emit_code(return_text(f.name));
            if e.error is Some {
                emitting(s, e)
            } else {
                Assembly {
                    state: s.close(f.name, f.arguments.len() as u32),
                    template: e.template.with_active("CODE"@),
                    error: None,
                }
            }
        },
    }
}

/// What `call <function> <arguments...>` leads to: each argument is stored
/// into the cell of its parameter; then a fresh call site is made, whose
/// landing pad's address goes to the function's return cell before the jump
/// to the function's entry.
pub open spec fn assembled_call(tokens: Seq<Seq<char>>, s: StateView, t: TemplateView) -> Assembly {
    if tokens.len() < 2 {
        refused(s, t, AsmError::MissingOpcode)
    } else if !s.cythan_funcs.contains_key(tokens[1]) {
        refused(s, t, AsmError::UnknownFunction)
    } else {
        let name = tokens[1];
        let operands = tokens.subrange(2, tokens.len() as int);
        match parsed_values(operands, operands.len()) {
            Err(e) => refused(s, t, e),
            Ok(values) => if values.len() != s.cythan_funcs[name] {
                refused(s, t, AsmError::WrongArgumentCount)
            } else if values.len() > MAX_PARAMETERS {
                refused(s, t, AsmError::TooManyParameters)
            } else {
                let stored = stored_inputs(name, values, values.len(), t);
                if stored.error is Some {
                    emitting(s, stored)
                } else if s.exhausted() {
                    refused(s, stored.template, AsmError::CounterExhausted)
                } else {
                    let id = s.counter + 1;
                    emitting(
                        s.with_counter(id),
                        stored.template.emit(
                            var_def(),
                            continuation_def_text(id),
                        ).then_emit_code(continuation_store_text(id, name)).then_emit_code(
                            call_jump_text(name),
                        ).then_emit_code(landing_text(id)),
                    )
                }
            },
        }
    }
}

/// What a line with an opcode of the table leads to: the operands are read,
/// the opcode is looked up, the operands are counted and checked against the
/// kinds that the opcode takes, and the emitter runs.
pub open spec fn assembled_opcode(
    tokens: Seq<Seq<char>>,
    s: StateView,
    t: TemplateView,
) -> Assembly {
    let operands = tokens.subrange(1, tokens.len() as int);
    match parsed_values(operands, operands.len()) {
        Err(e) => refused(s, t, e),
        Ok(values) => if !s.functions.contains_key(tokens[0]) {
            refused(s, t, AsmError::UnknownOpcode)
        } else {
            let kinds = s.functions[tokens[0]].0;
            if kinds.len() != values.len() {
                refused(s, t, AsmError::WrongArgumentCount)
            } else if !accepts_all(kinds, values, values.len()) {
                refused(s, t, AsmError::InvalidArgument)
            } else {
                emitting(s, emitted(s.functions[tokens[0]].1, values, t))
            }
        },
    }
}

/// What one line of pseudo-assembly leads to.
pub open spec fn assembled_line(line: Seq<char>, s: StateView, t: TemplateView) -> Assembly {
    let tokens = read_tokens(line, s);
    if tokens.len() == 0 {
        refused(s, t, AsmError::MissingOpcode)
    } else if tokens[0] == "ret"@ {
        assembled_ret(s, t)
    } else if tokens[0] == "call"@ {
        assembled_call(tokens, s, t)
    } else if tokens[0] == "func"@ {
        assembled_func(tokens, s, t)
    } else if tokens[0] == "end_func"@ {
        assembled_end_func(s, t)
    } else {
        assembled_opcode(tokens, s, t)
    }
}

/// Whether a line, once trimmed, is left out: an empty line, or a comment,
/// which begins with `#`.
pub open spec fn skipped(line: Seq<char>) -> bool {
    line.len() == 0 || line[0] == '#'
}

/// What the first `n` lines of a text lead to, in order, up to the first
/// that is refused. Each line is trimmed first.
pub open spec fn assembled_lines(
    source: Seq<Seq<char>>,
    n: nat,
    s: StateView,
    t: TemplateView,
) -> Assembly
    decreases n,
{
    if n == 0 || n > source.len() {
        Assembly { state: s, template: t, error: None }
    } else {
        let before = assembled_lines(source, (n - 1) as nat, s, t);
        if before.error is Some || skipped(trimmed(source[n - 1])) {
            before
        } else {
            assembled_line(trimmed(source[n - 1]), before.state, before.template)
        }
    }
}

/// What assembling a sequence of lines against a skeleton leads to: the
/// built text, or the error of the first line that is refused. Carriage
/// returns in the skeleton are left out.
pub open spec fn assembled_program(source: Seq<Seq<char>>, skeleton: Seq<char>) -> Result<
    Seq<char>,
    AsmError,
> {
    let a = assembled_lines(
        source,
        source.len(),
        StateView::initial(),
        TemplateView::parse(replaced(skeleton, "\r"@, ""@)),
    );
    match a.error {
        Some(e) => Err(e),
        None => Ok(a.template.build()),
    }
}

/// What assembling a text against a skeleton leads to: what assembling its
/// lines leads to.
pub open spec fn assembled_text(source: Seq<char>, skeleton: Seq<char>) -> Result<
    Seq<char>,
    AsmError,
> {
    assembled_program(lines(source), skeleton)
}

/// Once the definition of a parameter's cell is refused, the parameters
/// behind it change nothing.
pub proof fn lemma_defined_parameters_stop(function: Seq<char>, n: nat, m: nat, e: Emission)
    requires
        n <= m <= MAX_PARAMETERS,
        defined_parameters(function, n, e).error is Some,
    ensures
        defined_parameters(function, m, e) == defined_parameters(function, n, e),
    decreases m,
{
    if n < m {
        lemma_defined_parameters_stop(function, n, (m - 1) as nat, e);
    }
}

/// Once the store of an argument is refused, the arguments behind it change
/// nothing.
pub proof fn lemma_stored_inputs_stop(
    function: Seq<char>,
    values: Seq<ValueView>,
    n: nat,
    m: nat,
    t: TemplateView,
)
    requires
        n <= m <= values.len(),
        m <= MAX_PARAMETERS,
        stored_inputs(function, values, n, t).error is Some,
    ensures
        stored_inputs(function, values, m, t) == stored_inputs(function, values, n, t),
    decreases m,
{
    if n < m {
        lemma_stored_inputs_stop(function, values, n, (m - 1) as nat, t);
    }
}

/// Once a token is refused, the tokens behind it change nothing.
pub proof fn lemma_parsed_values_stop(tokens: Seq<Seq<char>>, n: nat, m: nat)
    requires
        n <= m <= tokens.len(),
        parsed_values(tokens, n) is Err,
    ensures
        parsed_values(tokens, m) == parsed_values(tokens, n),
    decreases m,
{
    if n < m {
        lemma_parsed_values_stop(tokens, n, (m - 1) as nat);
    }
}

/// Once an operand is of the wrong kind, the operands behind it do not mend
/// it.
pub proof fn lemma_accepts_all_stops(
    kinds: Seq<KindView>,
    values: Seq<ValueView>,
    n: nat,
    m: nat,
)
    requires
        n <= m,
        m <= kinds.len(),
        m <= values.len(),
        !accepts_all(kinds, values, n),
    ensures
        !accepts_all(kinds, values, m),
    decreases m,
{
    if n < m {
        lemma_accepts_all_stops(kinds, values, n, (m - 1) as nat);
    }
}

/// Once a line is refused, the lines behind it change nothing.
pub proof fn lemma_assembled_lines_stop(
    source: Seq<Seq<char>>,
    n: nat,
    m: nat,
    s: StateView,
    t: TemplateView,
)
    requires
        n <= m <= source.len(),
        assembled_lines(source, n, s, t).error is Some,
    ensures
        assembled_lines(source, m, s, t) == assembled_lines(source, n, s, t),
    decreases m,
{
    if n < m {
        lemma_assembled_lines_stop(source, n, (m - 1) as nat, s, t);
    }
}

/// The function that is open: its name and its parameters.
#[derive(Debug, PartialEq, Eq)]
pub struct FuncState {
    pub name: String,
    pub arguments: Vec<String>,
}

impl View for FuncState {
    type V = FuncStateView;

    open spec fn view(&self) -> FuncStateView {
        FuncStateView { name: self.name@, arguments: texts(self.arguments@) }
    }
}

/// The opcode table as the contracts see it: each signature by its view.
pub open spec fn table_view(m: Map<Seq<char>, (Vec<ValueType>, Emitter)>) -> Map<
    Seq<char>,
    (Seq<KindView>, Emitter),
> {
    Map::new(
        |k: Seq<char>| m.contains_key(k),
        |k: Seq<char>| (kind_views(m[k].0, m[k].0.len() as nat), m[k].1),
    )
}

/// The state of one assembly.
pub struct State {
    /// The opcode table.
    pub functions: StringHashMap<(Vec<ValueType>, Emitter)>,
    /// The closed functions, each with the number of its parameters.
    pub cythan_funcs: StringHashMap<u32>,
    /// The function that is open.
    pub func_state: Option<FuncState>,
    /// The last call-site id that was handed out.
    pub counter: usize,
}

impl View for State {
    type V = StateView;

    open spec fn view(&self) -> StateView {
        StateView {
            functions: table_view(self.functions@),
            cythan_funcs: self.cythan_funcs@,
            func_state: match self.func_state {
                Some(f) => Some(f@),
                None => None,
            },
            counter: self.counter as nat,
        }
    }
}

/// A signature of one kind.
fn signature1(a: ValueType) -> (v: Vec<ValueType>)
    ensures
        kind_views(v, v.len() as nat) == seq![a@],
{
    let mut v: Vec<ValueType> = Vec::new();
    v.push(a);
    proof {
        lemma_kind_views(v, v.len() as nat);
    }
    assert(kind_views(v, v.len() as nat) =~= seq![a@]);
    v
}

/// A signature of two kinds.
fn signature2(a: ValueType, b: ValueType) -> (v: Vec<ValueType>)
    ensures
        kind_views(v, v.len() as nat) == seq![a@, b@],
{
    let mut v: Vec<ValueType> = Vec::new();
    v.push(a);
    v.push(b);
    proof {
        lemma_kind_views(v, v.len() as nat);
    }
    assert(kind_views(v, v.len() as nat) =~= seq![a@, b@]);
    v
}

/// The kind that takes a variable or an immediate value.
fn variable_or_ref_kind() -> (kind: ValueType)
    ensures
        kind@ == variable_or_ref(),
{
    let options = signature2(ValueType::Variable, ValueType::RefNum);
    ValueType::Or(options)
}

/// Adds an opcode to a table.
fn add_opcode(
    table: &mut StringHashMap<(Vec<ValueType>, Emitter)>,
    name: &str,
    signature: Vec<ValueType>,
    emitter: Emitter,
)
    ensures
        table_view(final(table)@) == table_view(old(table)@).insert(
            name@,
            (kind_views(signature, signature.len() as nat), emitter),
        ),
{
    table.insert(String::from_str(name), (signature, emitter));
    assert(table_view(table@) =~= table_view(old(table)@).insert(
        name@,
        (kind_views(signature, signature.len() as nat), emitter),
    ));
}

impl State {
    /// The state before any line is read, with the standard opcode table.
    pub fn new() -> (s: State)
        ensures
            s@ == StateView::initial(),
    {
        let mut table: StringHashMap<(Vec<ValueType>, Emitter)> = StringHashMap::new();
        assert(table_view(table@) =~= Map::<Seq<char>, (Seq<KindView>, Emitter)>::empty());
        add_opcode(&mut table, "label", signature1(ValueType::Label), Emitter::Label);
        add_opcode(
            &mut table,
            "let",
            signature2(ValueType::Variable, ValueType::Num),
            Emitter::Let,
        );
        add_opcode(
            &mut table,
            "if_0",
            signature2(ValueType::Variable, ValueType::Label),
            Emitter::IfZero,
        );
        add_opcode(
            &mut table,
            "set",
            signature2(ValueType::Variable, variable_or_ref_kind()),
            Emitter::Store,
        );
        add_opcode(&mut table, "exit", signature1(variable_or_ref_kind()), Emitter::Exit);
        add_opcode(&mut table, "inc", signature1(ValueType::Variable), Emitter::Inc);
        let none: Vec<ValueType> = Vec::new();
        assert(kind_views(none, none.len() as nat) =~= Seq::<KindView>::empty());
        add_opcode(&mut table, "no_op", none, Emitter::NoOp);
        add_opcode(&mut table, "dec", signature1(ValueType::Variable), Emitter::Dec);
        add_opcode(&mut table, "jump", signature1(ValueType::Label), Emitter::Jump);
        add_opcode(&mut table, "jump_var", signature1(ValueType::Variable), Emitter::JumpVar);
        add_opcode(
            &mut table,
            "set_lbl",
            signature2(ValueType::Variable, ValueType::Label),
            Emitter::StoreLabel,
        );
        State {
            functions: table,
            cythan_funcs: StringHashMap::new(),
            func_state: None,
            counter: 0,
        }
    }

    /// Hands out the next call-site id.
    pub fn count(&mut self) -> (id: usize)
        requires
            !old(self)@.exhausted(),
        ensures
            id == old(self).counter + 1,
            final(self)@ == old(self)@.with_counter(id as nat),
    {
        self.counter = self.counter + 1;
        self.counter
    }
}

impl Default for State {
    fn default() -> (s: State)
        ensures
            s@ == StateView::initial(),
    {
        State::new()
    }
}

/// Once a parameter is found that a token refers to, more parameters do not
/// change which.
pub proof fn lemma_parameter_index_stable(
    token: Seq<char>,
    parameters: Seq<Seq<char>>,
    n: nat,
    m: nat,
)
    requires
        n <= m <= parameters.len(),
        parameter_index(token, parameters, n) is Some,
    ensures
        parameter_index(token, parameters, m) == parameter_index(token, parameters, n),
    decreases m,
{
    if n < m {
        lemma_parameter_index_stable(token, parameters, n, (m - 1) as nat);
    }
}

/// Reads one token inside the open function `f`.
fn substitute(token: &String, f: &FuncState) -> (out: String)
    ensures
        out@ == substituted_token(token@, f.name@, texts(f.arguments@)),
{
    let ghost parameters = texts(f.arguments@);
    let mut i: usize = 0;
    while i < f.arguments.len()
        invariant
            i <= f.arguments.len(),
            parameters == texts(f.arguments@),
            parameter_index(token@, parameters, i as nat) is None,
        decreases f.arguments.len() - i,
    {
        let mut reference = String::from_str("$");
        reference.append(f.arguments[i].as_str());
        assert(parameters[i as int] == f.arguments[i as int]@);
        if same_text(token.as_str(), reference.as_str()) {
            proof {
                assert(parameter_index(token@, parameters, (i + 1) as nat) == Some(i as int));
                lemma_parameter_index_stable(
                    token@,
                    parameters,
                    (i + 1) as nat,
                    parameters.len(),
                );
            }
            let numeral = decimal_string(i + 1);
            let mut cell = f.name.clone();
            cell.append("_in");
            cell.append(numeral.as_str());
            return cell;
        }
        i = i + 1;
    }
    token.clone()
}

/// The tokens of a line as they are read.
fn read_line(line: &str, state: &State) -> (tokens: Vec<String>)
    ensures
        texts(tokens@) == read_tokens(line@, state@),
{
    let found = split_words(line);
    match &state.func_state {
        None => found,
        Some(f) => {
            let ghost all = texts(found@);
            let mut tokens: Vec<String> = Vec::new();
            let mut i: usize = 0;
            assert(texts(tokens@) =~= Seq::<Seq<char>>::empty());
            while i < found.len()
                invariant
                    i <= found.len(),
                    all == texts(found@),
                    texts(tokens@) == substituted_tokens(
                        all,
                        f.name@,
                        texts(f.arguments@),
                        i as nat,
                    ),
                decreases found.len() - i,
            {
                assert(all[i as int] == found[i as int]@);
                let token = substitute(&found[i], f);
                let ghost before = texts(tokens@);
                tokens.push(token);
                assert(texts(tokens@) =~= before.push(token@));
                i = i + 1;
            }
            tokens
        },
    }
}

/// Reads the tokens from the index `from` on as operands.
fn parse_operands(tokens: &Vec<String>, from: usize) -> (r: Result<Vec<Value>, AsmError>)
    requires
        from <= tokens.len(),
    ensures
        ({
            let operands = texts(tokens@).subrange(from as int, tokens.len() as int);
            match r {
                Ok(values) => parsed_values(operands, operands.len()) == Ok::<
                    Seq<ValueView>,
                    AsmError,
                >(value_views(values@)),
                Err(e) => parsed_values(operands, operands.len()) == Err::<
                    Seq<ValueView>,
                    AsmError,
                >(e),
            }
        }),
{
    let ghost operands = texts(tokens@).subrange(from as int, tokens.len() as int);
    let count = tokens.len() - from;
    let mut values: Vec<Value> = Vec::new();
    let mut i: usize = 0;
    assert(value_views(values@) =~= Seq::<ValueView>::empty());
    while i < count
        invariant
            i <= count,
            count == tokens.len() - from,
            operands == texts(tokens@).subrange(from as int, tokens.len() as int),
            parsed_values(operands, i as nat) == Ok::<Seq<ValueView>, AsmError>(
                value_views(values@),
            ),
        decreases count - i,
    {
        assert(operands[i as int] == tokens[from + i]@);
        match Value::from_str(tokens[from + i].as_str()) {
            Err(e) => {
                proof {
                    lemma_parsed_values_stop(operands, (i + 1) as nat, operands.len());
                }
                return Err(e);
            },
            Ok(value) => {
                let ghost before = value_views(values@);
                values.push(value);
                assert(value_views(values@) =~= before.push(value@));
            },
        }
        i = i + 1;
    }
    Ok(values)
}

/// Runs an emitter of the table on its operands.
fn emit(emitter: Emitter, values: &Vec<Value>, template: &mut Template) -> (r: Result<
    (),
    AsmError,
>)
    ensures
        final(template)@ == emitted(emitter, value_views(values@), old(template)@).template,
        r == result_of(emitted(emitter, value_views(values@), old(template)@).error),
{
    let n = values.len();
    assert(forall|j: int| 0 <= j < n ==> value_views(values@)[j] == values[j]@);
    match emitter {
        Emitter::Label => {
            if n >= 1 {
                if let Some(name) = values[0].label() {
                    return Label::Label(name.clone()).apply(template);
                }
            }
            Err(AsmError::InvalidArgument)
        },
        Emitter::Let => {
            if n >= 2 {
                if let Some(name) = values[0].var() {
                    if let Some(size) = values[1].num() {
                        return VariableDef::NumberVariable(name.clone(), size).apply(template);
                    }
                }
            }
            Err(AsmError::InvalidArgument)
        },
        Emitter::IfZero => {
            if n >= 2 {
                if let Some(name) = values[0].var() {
                    if let Some(label) = values[1].label() {
                        return Condition::If0(name.clone(), label.clone()).apply(template);
                    }
                }
            }
            Err(AsmError::InvalidArgument)
        },
        Emitter::Store => {
            if n >= 2 {
                if let Some(target) = values[0].var() {
                    match &values[1] {
                        Value::Variable(source) => {
                            return VariableSet::Variable(target.clone(), source.clone()).apply(
                                template,
                            );
                        },
                        Value::RefNum(value) => {
                            return VariableSet::Number(target.clone(), *value).apply(template);
                        },
                        _ => {},
                    }
                }
            }
            Err(AsmError::InvalidArgument)
        },
        Emitter::Exit => {
            if n >= 1 {
                match &values[0] {
                    Value::Variable(name) => {
                        return GenericFunction::Exit(DataRef::Variable(name.clone())).apply(
                            template,
                        );
                    },
                    Value::RefNum(value) => {
                        return GenericFunction::Exit(DataRef::RefNum(*value)).apply(template);
                    },
                    _ => {},
                }
            }
            Err(AsmError::InvalidArgument)
        },
        Emitter::Inc => {
            if n >= 1 {
                if let Some(name) = values[0].var() {
                    return GenericFunction::Inc(name.clone()).apply(template);
                }
            }
            Err(AsmError::InvalidArgument)
        },
        Emitter::NoOp => GenericFunction::NoOp.apply(template),
        Emitter::Dec => {
            if n >= 1 {
                if let Some(name) = values[0].var() {
                    return GenericFunction::Dec(name.clone()).apply(template);
                }
            }
            Err(AsmError::InvalidArgument)
        },
        Emitter::Jump => {
            if n >= 1 {
                if let Some(label) = values[0].label() {
                    return Jumps::JumpLabel(label.clone()).apply(template);
                }
            }
            Err(AsmError::InvalidArgument)
        },
        Emitter::JumpVar => {
            if n >= 1 {
                if let Some(name) = values[0].var() {
                    return Jumps::JumpVariable(name.clone()).apply(template);
                }
            }
            Err(AsmError::InvalidArgument)
        },
        Emitter::StoreLabel => {
            if n >= 2 {
                if let Some(name) = values[0].var() {
                    if let Some(label) = values[1].label() {
                        return VariableSet::Label(name.clone(), label.clone()).apply(template);
                    }
                }
            }
            Err(AsmError::InvalidArgument)
        },
    }
}

/// Assembles `ret`.
fn compile_ret(state: &State, template: &mut Template) -> (r: Result<(), AsmError>)
    ensures
        final(template)@ == assembled_ret(state@, old(template)@).template,
        r == result_of(assembled_ret(state@, old(template)@).error),
{
    match &state.func_state {
        None => Err(AsmError::OutsideFunction),
        Some(f) => Jumps::JumpFuncEnd(f.name.clone()).apply(template),
    }
}

/// Assembles `func`.
#[verifier::loop_isolation(false)]
fn compile_func(tokens: &Vec<String>, state: &mut State, template: &mut Template) -> (r: Result<
    (),
    AsmError,
>)
    ensures
        ({
            let a = assembled_func(texts(tokens@), old(state)@, old(template)@);
            &&& final(state)@ == a.state
            &&& final(template)@ == a.template
            &&& r == result_of(a.error)
        }),
{
    if tokens.len() < 2 {
        return Err(AsmError::MissingOpcode);
    }
    let name = tokens[1].clone();
    assert(name@ == texts(tokens@)[1]);
    let count = tokens.len() - 2;
    if count > MAX_PARAMETERS {
        return Err(AsmError::TooManyParameters);
    }
    let ghost parameters = texts(tokens@).subrange(2, tokens.len() as int);
    let mut arguments: Vec<String> = Vec::new();
    let mut i: usize = 0;
    while i < count
        invariant
            i <= count,
            count == tokens.len() - 2,
            arguments.len() == i,
            forall|j: int| 0 <= j < i ==> arguments[j]@ == tokens[j + 2]@,
        decreases count - i,
    {
        arguments.push(tokens[i + 2].clone());
        i = i + 1;
    }
    assert(texts(arguments@) =~= parameters);
    template.set_code_section(String::from_str("FUNCTION_DEF"));
    let mut cell = String::from_str("'");
    cell.append(name.as_str());
    cell.append("_cb:16");
    match template.add_section("FUNCTION_DEF", cell) {
        Err(e) => {
            proof {
                lemma_defined_parameters_stop(
                    name@,
                    0,
                    count as nat,
                    old(template)@.with_active(function_def()).emit(
                        function_def(),
                        return_cell_text(name@),
                    ).then_emit_code(entry_text(name@)),
                );
            }
            return Err(e);
        },
        Ok(_) => {},
    }
    let mut entry = String::from_str("'fnstart_");
    entry.append(name.as_str());
    entry.append(":no_op\n");
    let ghost start = old(template)@.with_active(function_def()).emit(
        function_def(),
        return_cell_text(name@),
    ).then_emit_code(entry_text(name@));
    match template.add_code(entry) {
        Err(e) => {
            proof {
                lemma_defined_parameters_stop(name@, 0, count as nat, start);
            }
            return Err(e);
        },
        Ok(_) => {},
    }
    let mut k: usize = 0;
    while k < count
        invariant
            k <= count,
            count <= MAX_PARAMETERS,
            defined_parameters(name@, k as nat, start).error is None,
            template@ == defined_parameters(name@, k as nat, start).template,
        decreases count - k,
    {
        match VariableDef::FunctionVariable(name.clone(), (k + 1) as u8).apply(template) {
            Err(e) => {
                proof {
                    lemma_defined_parameters_stop(name@, (k + 1) as nat, count as nat, start);
                }
                return Err(e);
            },
            Ok(_) => {},
        }
        k = k + 1;
    }
    state.func_state = Some(FuncState { name, arguments });
    assert(state@ =~= old(state)@.open(name@, parameters));
    Ok(())
}

/// Assembles `end_func`.
fn compile_end_func(state: &mut State, template: &mut Template) -> (r: Result<(), AsmError>)
    ensures
        ({
            let a = assembled_end_func(old(state)@, old(template)@);
            &&& final(state)@ == a.state
            &&& final(template)@ == a.template
            &&& r == result_of(a.error)
        }),
{
    let (name, arity) = match &state.func_state {
        None => {
            return Err(AsmError::OutsideFunction);
        },
        Some(f) => {
            if f.arguments.len() > MAX_PARAMETERS {
                return Err(AsmError::TooManyParameters);
            }
            (f.name.clone(), f.arguments.len() as u32)
        },
    };
    match Jumps::JumpFuncEnd(name.clone()).apply(template) {
        Err(e) => {
            return Err(e);
        },
        Ok(_) => {},
    }
    state.cythan_funcs.insert(name, arity);
    state.func_state = None;
    assert(state@ =~= old(state)@.close(name@, arity));
    template.set_code_section(String::from_str("CODE"));
    Ok(())
}

/// Assembles `call`.
#[verifier::loop_isolation(false)]
fn compile_call(tokens: &Vec<String>, state: &mut State, template: &mut Template) -> (r: Result<
    (),
    AsmError,
>)
    ensures
        ({
            let a = assembled_call(texts(tokens@), old(state)@, old(template)@);
            &&& final(state)@ == a.state
            &&& final(template)@ == a.template
            &&& r == result_of(a.error)
        }),
{
    if tokens.len() < 2 {
        return Err(AsmError::MissingOpcode);
    }
    let name = tokens[1].clone();
    assert(name@ == texts(tokens@)[1]);
    let arity = match state.cythan_funcs.get(name.as_str()) {
        None => {
            return Err(AsmError::UnknownFunction);
        },
        Some(arity) => *arity,
    };
    let values = match parse_operands(tokens, 2) {
        Err(e) => {
            return Err(e);
        },
        Ok(values) => values,
    };
    let ghost views = value_views(values@);
    if values.len() > u32::MAX as usize || values.len() as u32 != arity {
        return Err(AsmError::WrongArgumentCount);
    }
    if values.len() > MAX_PARAMETERS {
        return Err(AsmError::TooManyParameters);
    }
    let ghost start = template@;
    let mut i: usize = 0;
    while i < values.len()
        invariant
            i <= values.len(),
            values.len() <= MAX_PARAMETERS,
            views == value_views(values@),
            stored_inputs(name@, views, i as nat, start).error is None,
            template@ == stored_inputs(name@, views, i as nat, start).template,
        decreases values.len() - i,
    {
        assert(views[i as int] == values[i as int]@);
        let stored = match &values[i] {
            Value::RefNum(value) => VariableSet::FunctionInput(
                name.clone(),
                (i + 1) as u8,
                DataRef::RefNum(*value),
            ).apply(template),
            Value::Variable(variable) => VariableSet::FunctionInput(
                name.clone(),
                (i + 1) as u8,
                DataRef::Variable(variable.clone()),
            ).apply(template),
            Value::Num(_) => Err(AsmError::NumberArgument),
            Value::Label(_) => Err(AsmError::LabelArgument),
        };
        match stored {
            Err(e) => {
                proof {
                    lemma_stored_inputs_stop(
                        name@,
                        views,
                        (i + 1) as nat,
                        values.len() as nat,
                        start,
                    );
                }
                return Err(e);
            },
            Ok(_) => {},
        }
        i = i + 1;
    }
    if state.counter == usize::MAX {
        return Err(AsmError::CounterExhausted);
    }
    let id = state.count();
    let numeral = decimal_string(id);
    let mut definition = String::from_str("'#global_continue_");
    definition.append(numeral.as_str());
    definition.append(":'continue_");
    definition.append(numeral.as_str());
    match template.add_section("VAR_DEF", definition) {
        Err(e) => {
            return Err(e);
        },
        Ok(_) => {},
    }
    let mut store = String::from_str("'#global_continue_");
    store.append(numeral.as_str());
    store.append(" '");
    store.append(name.as_str());
    store.append("_cb");
    match template.add_code(store) {
        Err(e) => {
            return Err(e);
        },
        Ok(_) => {},
    }
    let mut jump = String::from_str("jump('fnstart_");
    jump.append(name.as_str());
    jump.append(")");
    match template.add_code(jump) {
        Err(e) => {
            return Err(e);
        },
        Ok(_) => {},
    }
    let mut landing = String::from_str("'continue_");
    landing.append(numeral.as_str());
    landing.append(":no_op");
    template.add_code(landing)
}

/// Assembles a line whose opcode is looked up in the table.
#[verifier::loop_isolation(false)]
fn compile_opcode(tokens: &Vec<String>, state: &State, template: &mut Template) -> (r: Result<
    (),
    AsmError,
>)
    requires
        tokens.len() >= 1,
    ensures
        ({
            let a = assembled_opcode(texts(tokens@), state@, old(template)@);
            &&& final(template)@ == a.template
            &&& r == result_of(a.error)
            &&& a.state == state@
        }),
{
    let values = match parse_operands(tokens, 1) {
        Err(e) => {
            return Err(e);
        },
        Ok(values) => values,
    };
    assert(tokens[0]@ == texts(tokens@)[0]);
    match state.functions.get(tokens[0].as_str()) {
        None => Err(AsmError::UnknownOpcode),
        Some(entry) => {
            let ghost kinds = kind_views(entry.0, entry.0.len() as nat);
            let ghost views = value_views(values@);
            proof {
                lemma_kind_views(entry.0, entry.0.len() as nat);
            }
            if entry.0.len() != values.len() {
                return Err(AsmError::WrongArgumentCount);
            }
            let mut i: usize = 0;
            while i < values.len()
                invariant
                    i <= values.len(),
                    entry.0.len() == values.len(),
                    kinds.len() == entry.0.len(),
                    views == value_views(values@),
                    forall|j: int| 0 <= j < entry.0.len() ==> kinds[j] == entry.0[j]@,
                    accepts_all(kinds, views, i as nat),
                decreases values.len() - i,
            {
                assert(views[i as int] == values[i as int]@);
                if !entry.0[i].check(&values[i]) {
                    proof {
                        lemma_accepts_all_stops(
                            kinds,
                            views,
                            (i + 1) as nat,
                            values.len() as nat,
                        );
                    }
                    return Err(AsmError::InvalidArgument);
                }
                i = i + 1;
            }
            emit(entry.1, &values, template)
        },
    }
}

/// Assembles one line of pseudo-assembly: emits its machine text into the
/// template and updates the state. A line that is refused may leave behind
/// what it emitted before the refusal.
pub fn compile(line: &str, state: &mut State, template: &mut Template) -> (r: Result<
    (),
    AsmError,
>)
    ensures
        ({
            let a = assembled_line(line@, old(state)@, old(template)@);
            &&& final(state)@ == a.state
            &&& final(template)@ == a.template
            &&& r == result_of(a.error)
        }),
{
    let tokens = read_line(line, state);
    if tokens.len() == 0 {
        return Err(AsmError::MissingOpcode);
    }
    assert(tokens[0]@ == texts(tokens@)[0]);
    if same_text(tokens[0].as_str(), "ret") {
        compile_ret(state, template)
    } else if same_text(tokens[0].as_str(), "call") {
        compile_call(&tokens, state, template)
    } else if same_text(tokens[0].as_str(), "func") {
        compile_func(&tokens, state, template)
    } else if same_text(tokens[0].as_str(), "end_func") {
        compile_end_func(state, template)
    } else {
        compile_opcode(&tokens, state, template)
    }
}

/// Whether a trimmed line is left out.
fn is_skipped(line: &str) -> (skip: bool)
    ensures
        skip == skipped(line@),
{
    let chars = chars_of(line);
    chars.len() == 0 || chars[0] == '#'
}

/// Assembles a sequence of lines of pseudo-assembly against a skeleton and
/// returns the built machine text. Each line is trimmed; empty lines and
/// comments are left out. Stops at the first line that is refused.
#[verifier::loop_isolation(false)]
pub fn assemble_lines(source: &Vec<String>, skeleton: &str) -> (r: Result<String, AsmError>)
    ensures
        match r {
            Ok(text) => assembled_program(texts(source@), skeleton@) == Ok::<
                Seq<char>,
                AsmError,
            >(text@),
            Err(e) => assembled_program(texts(source@), skeleton@) == Err::<Seq<char>, AsmError>(
                e,
            ),
        },
{
    let cleaned = replace_all(skeleton, "\r", "");
    let mut template = Template::new(cleaned.as_str());
    let mut state = State::new();
    let ghost all = texts(source@);
    let ghost s0 = state@;
    let ghost t0 = template@;
    let mut i: usize = 0;
    while i < source.len()
        invariant
            i <= source.len(),
            assembled_lines(all, i as nat, s0, t0).error is None,
            state@ == assembled_lines(all, i as nat, s0, t0).state,
            template@ == assembled_lines(all, i as nat, s0, t0).template,
        decreases source.len() - i,
    {
        assert(all[i as int] == source[i as int]@);
        let line = trim(source[i].as_str());
        if !is_skipped(line) {
            match compile(line, &mut state, &mut template) {
                Err(e) => {
                    proof {
                        lemma_assembled_lines_stop(all, (i + 1) as nat, all.len(), s0, t0);
                    }
                    return Err(e);
                },
                Ok(_) => {},
            }
        }
        i = i + 1;
    }
    Ok(template.build())
}

/// Assembles a text of pseudo-assembly, one instruction per line, against a
/// skeleton and returns the built machine text.
pub fn assemble(source: &str, skeleton: &str) -> (r: Result<String, AsmError>)
    ensures
        match r {
            Ok(text) => assembled_text(source@, skeleton@) == Ok::<Seq<char>, AsmError>(text@),
            Err(e) => assembled_text(source@, skeleton@) == Err::<Seq<char>, AsmError>(e),
        },
{
    let source_lines = split_lines(source);
    assemble_lines(&source_lines, skeleton)
}

} // verus!
