//! The front end: from the syntax tree to lines of pseudo-assembly.
//!
//! What the compiler does is written down once, as functions from a tree and
//! the state before to the state after (`compiled_expression`,
//! `compiled_instruction`, `compiled_block`, `compiled_element`). The
//! executable functions are proved to compute exactly that.

use vstd::prelude::*;
use vstd::hash_map::StringHashMap;
use vstd::hash_set::StringHashSet;
use crate::ast::{
    BooleanExpression, BooleanExpressionView, BooleanTest, CodeBlock, CodeBlockView,
    Expression, ExpressionView, FileElement, FileElementView, Instruction, InstructionView,
    element_views, expression_views, lemma_expression_views,
    lemma_instruction_views,
};
use crate::text::{decimal, decimal_string, join, join_spaces, same_text, texts};

verus! {

/// Why a compilation stopped.
pub enum Failure {
    /// A call names a function that no element before it declared.
    UnknownFunction(Seq<char>),
    /// A call hands over more or fewer arguments than the function takes.
    WrongArgumentCount,
    /// A `return` stands outside every function.
    ReturnOutsideFunction,
    /// A `continue` or a `break` stands outside every loop.
    NoEnclosingLoop,
    /// The counter of fresh ids has reached the largest `usize`.
    CounterExhausted,
}

/// The error that the front end returns; its view is a [`Failure`].
#[derive(Debug, PartialEq, Eq)]
pub enum CompileError {
    /// A call names a function that no element before it declared.
    UnknownFunction(String),
    /// A call hands over more or fewer arguments than the function takes.
    WrongArgumentCount,
    /// A `return` stands outside every function.
    ReturnOutsideFunction,
    /// A `continue` or a `break` stands outside every loop.
    NoEnclosingLoop,
    /// The counter of fresh ids has reached the largest `usize`.
    CounterExhausted,
}

impl View for CompileError {
    type V = Failure;

    open spec fn view(&self) -> Failure {
        match self {
            CompileError::UnknownFunction(name) => Failure::UnknownFunction(name@),
            CompileError::WrongArgumentCount => Failure::WrongArgumentCount,
            CompileError::ReturnOutsideFunction => Failure::ReturnOutsideFunction,
            CompileError::NoEnclosingLoop => Failure::NoEnclosingLoop,
            CompileError::CounterExhausted => Failure::CounterExhausted,
        }
    }
}

/// The failure that a result stands for, if any.
pub open spec fn failure_of<T>(r: Result<T, CompileError>) -> Option<Failure> {
    match r {
        Ok(_) => None,
        Err(e) => Some(e@),
    }
}

/// The text of a failure, as a user reads it.
pub open spec fn failure_message(f: Failure) -> Seq<char> {
    match f {
        Failure::UnknownFunction(name) => "Can't find function "@ + name,
        Failure::WrongArgumentCount => "Invalid number of arguments"@,
        Failure::ReturnOutsideFunction => "Can't use return outside of a function"@,
        Failure::NoEnclosingLoop => "Can't use continue or break: no enclosing loop"@,
        Failure::CounterExhausted => "Too many calls, conditionals and loops"@,
    }
}

impl CompileError {
    /// The text of the error.
    pub fn message(&self) -> (text: String)
        ensures
            text@ == failure_message(self@),
    {
        match self {
            CompileError::UnknownFunction(name) => {
                let mut text = String::from_str("Can't find function ");
                text.append(name.as_str());
                text
            },
            CompileError::WrongArgumentCount => String::from_str("Invalid number of arguments"),
            CompileError::ReturnOutsideFunction => String::from_str(
                "Can't use return outside of a function",
            ),
            CompileError::NoEnclosingLoop => String::from_str(
                "Can't use continue or break: no enclosing loop",
            ),
            CompileError::CounterExhausted => String::from_str(
                "Too many calls, conditionals and loops",
            ),
        }
    }
}

/// The function that is being compiled, as the contracts see it.
pub struct FunctionContextView {
    pub name: Seq<char>,
    pub arguments: Set<Seq<char>>,
}

/// The compiler's state, as the contracts see it.
#[verifier::ext_equal]
pub struct ContextView {
    /// Each declared function: whether the target supplies it, and its
    /// parameters.
    pub functions: Map<Seq<char>, (bool, Seq<Seq<char>>)>,
    /// The last fresh id that was handed out.
    pub counter: nat,
    /// The lines emitted so far.
    pub lines: Seq<Seq<char>>,
    /// Where the value of the last compiled expression stands.
    pub out: Seq<char>,
    /// The function around the code being compiled; `None` in `main`.
    pub function: Option<FunctionContextView>,
    /// The ids of the loops around the code being compiled, innermost last.
    pub loops: Seq<nat>,
    /// The variables declared so far.
    pub vars: Set<Seq<char>>,
}

/// A state and, where the compilation stopped in it, the reason.
pub struct Outcome {
    pub context: ContextView,
    pub failure: Option<Failure>,
}

/// The outcome of compiling a list of arguments: as an [`Outcome`], with the
/// place of each argument's value.
pub struct ArgumentsOutcome {
    pub context: ContextView,
    pub failure: Option<Failure>,
    pub outs: Seq<Seq<char>>,
}

impl ContextView {
    /// The state before anything is compiled.
    pub open spec fn initial() -> ContextView {
        ContextView {
            functions: Map::empty(),
            counter: 0,
            lines: Seq::empty(),
            out: Seq::empty(),
            function: None,
            loops: Seq::empty(),
            vars: Set::empty(),
        }
    }

    /// This state with one more line.
    pub open spec fn emit(self, line: Seq<char>) -> ContextView {
        ContextView { lines: self.lines.push(line), ..self }
    }

    /// This state with another place for the last value.
    pub open spec fn with_out(self, out: Seq<char>) -> ContextView {
        ContextView { out, ..self }
    }

    /// This state with another counter.
    pub open spec fn with_counter(self, counter: nat) -> ContextView {
        ContextView { counter, ..self }
    }

    /// This state with another function around the code.
    pub open spec fn with_function(self, function: Option<FunctionContextView>) -> ContextView {
        ContextView { function, ..self }
    }

    /// This state with one more loop around the code.
    pub open spec fn enter_loop(self, id: nat) -> ContextView {
        ContextView { loops: self.loops.push(id), ..self }
    }

    /// This state without the innermost loop, if there is one.
    pub open spec fn leave_loop(self) -> ContextView {
        if self.loops.len() == 0 {
            self
        } else {
            ContextView { loops: self.loops.drop_last(), ..self }
        }
    }

    /// This state with one more declared variable.
    pub open spec fn declare(self, name: Seq<char>) -> ContextView {
        ContextView { vars: self.vars.insert(name), ..self }
    }

    /// This state with one more declared function.
    pub open spec fn register(
        self,
        name: Seq<char>,
        is_extern: bool,
        parameters: Seq<Seq<char>>,
    ) -> ContextView {
        ContextView { functions: self.functions.insert(name, (is_extern, parameters)), ..self }
    }

    /// Whether `name` is a parameter of the function around the code.
    pub open spec fn is_parameter(self, name: Seq<char>) -> bool {
        self.function matches Some(f) && f.arguments.contains(name)
    }

    /// Whether no fresh id is left.
    pub open spec fn exhausted(self) -> bool {
        self.counter >= usize::MAX
    }
}

/// The outcome of a step that went through.
pub open spec fn done(context: ContextView) -> Outcome {
    Outcome { context, failure: None }
}

/// The outcome of a step that stopped.
pub open spec fn failed(context: ContextView, failure: Failure) -> Outcome {
    Outcome { context, failure: Some(failure) }
}

/// The name of a label or of a temporary: its kind, then the decimal numeral
/// of a fresh id.
pub open spec fn fresh_name(kind: Seq<char>, id: nat) -> Seq<char> {
    kind + decimal(id)
}

/// The temporary that holds the result of the call with the id `id`.
pub open spec fn temporary(id: nat) -> Seq<char> {
    fresh_name("TMP"@, id)
}

/// The cell in which the function `name` leaves its result.
pub open spec fn out_cell(name: Seq<char>) -> Seq<char> {
    name + "_out"@
}

/// `let <name> 0`: declares a variable.
pub open spec fn line_let(name: Seq<char>) -> Seq<char> {
    "let "@ + name + " 0"@
}

/// `set <target> <source>`: stores a value.
pub open spec fn line_set(target: Seq<char>, source: Seq<char>) -> Seq<char> {
    "set "@ + target + " "@ + source
}

/// `if_0 <place> '<label>`: jumps where the place holds zero.
pub open spec fn line_if_zero(place: Seq<char>, label: Seq<char>) -> Seq<char> {
    "if_0 "@ + place + " '"@ + label
}

/// `jump '<label>`.
pub open spec fn line_jump(label: Seq<char>) -> Seq<char> {
    "jump '"@ + label
}

/// `label '<label>`.
pub open spec fn line_label(label: Seq<char>) -> Seq<char> {
    "label '"@ + label
}

/// `call <name> <places>`: calls a compiled function.
pub open spec fn line_call(name: Seq<char>, places: Seq<Seq<char>>) -> Seq<char> {
    "call "@ + name + " "@ + join(places, ' ')
}

/// `<name> <places>`: hands the places to a function of the target.
pub open spec fn line_extern(name: Seq<char>, places: Seq<Seq<char>>) -> Seq<char> {
    name + " "@ + join(places, ' ')
}

/// `func <name> <parameters>`: opens a function.
pub open spec fn line_func(name: Seq<char>, parameters: Seq<Seq<char>>) -> Seq<char> {
    "func "@ + name + " "@ + join(parameters, ' ')
}

/// Why a call of `name` with `arity` arguments is refused, if it is.
pub open spec fn call_refusal(c: ContextView, name: Seq<char>, arity: nat) -> Option<Failure> {
    if !c.functions.contains_key(name) {
        Some(Failure::UnknownFunction(name))
    } else if c.functions[name].1.len() != arity {
        Some(Failure::WrongArgumentCount)
    } else {
        None
    }
}

/// The state after the lines of a call are emitted: for a function of the
/// target one line; for a compiled function the call, a fresh temporary and
/// the copy of the function's result into it.
pub open spec fn call_emitted(
    c: ContextView,
    name: Seq<char>,
    is_extern: bool,
    id: nat,
    places: Seq<Seq<char>>,
) -> ContextView {
    if is_extern {
        c.emit(line_extern(name, places))
    } else {
        c.emit(line_call(name, places)).emit(line_let(temporary(id))).emit(
            line_set(temporary(id), out_cell(name)),
        ).with_out(temporary(id))
    }
}

/// What compiling the expression `e` in the state `c` leads to.
pub open spec fn compiled_expression(e: ExpressionView, c: ContextView) -> Outcome
    decreases e, 0nat,
{
    match e {
        ExpressionView::Number(n) => done(c.with_out("&"@ + decimal(n as nat))),
        ExpressionView::Variable(name) => {
            if c.is_parameter(name) {
                done(c.with_out("$"@ + name))
            } else if c.vars.contains(name) {
                done(c.with_out(name))
            } else {
                done(c.declare(name).emit(line_let(name)).with_out(name))
            }
        },
        ExpressionView::FunctionCall(name, args) => {
            if c.exhausted() {
                failed(c, Failure::CounterExhausted)
            } else {
                let id = c.counter + 1;
                let opened = c.with_counter(id);
                match call_refusal(opened, name, args.len()) {
                    Some(failure) => failed(opened, failure),
                    None => {
                        let a = compiled_arguments(args, args.len(), opened);
                        if a.failure is Some {
                            Outcome { context: a.context, failure: a.failure }
                        } else {
                            done(
                                call_emitted(
                                    a.context,
                                    name,
                                    opened.functions[name].0,
                                    id,
                                    a.outs,
                                ),
                            )
                        }
                    },
                }
            }
        },
    }
}

/// What compiling the first `n` of `args` leads to, from the left, up to the
/// first that fails.
pub open spec fn compiled_arguments(
    args: Seq<ExpressionView>,
    n: nat,
    c: ContextView,
) -> ArgumentsOutcome
    decreases args, n,
{
    if n == 0 || n > args.len() {
        ArgumentsOutcome { context: c, failure: None, outs: Seq::empty() }
    } else {
        let before = compiled_arguments(args, (n - 1) as nat, c);
        if before.failure is Some {
            before
        } else {
            let o = compiled_expression(args[n - 1], before.context);
            ArgumentsOutcome {
                context: o.context,
                failure: o.failure,
                outs: before.outs.push(o.context.out),
            }
        }
    }
}

/// Whether `e` is the literal zero.
pub open spec fn is_zero(e: ExpressionView) -> bool {
    e == ExpressionView::Number(0)
}

/// What compiling the value that a test compares with zero leads to: the
/// other side where one side is the literal zero, else the call of `sub` on
/// the two sides.
pub open spec fn compiled_test(test: BooleanExpressionView, c: ContextView) -> Outcome
    decreases test, 0nat,
{
    if is_zero(test.2) {
        compiled_expression(test.0, c)
    } else if is_zero(test.0) {
        compiled_expression(test.2, c)
    } else if c.exhausted() {
        failed(c, Failure::CounterExhausted)
    } else {
        let id = c.counter + 1;
        let opened = c.with_counter(id);
        match call_refusal(opened, "sub"@, 2) {
            Some(failure) => failed(opened, failure),
            None => {
                let left = compiled_expression(test.0, opened);
                if left.failure is Some {
                    left
                } else {
                    let right = compiled_expression(test.2, left.context);
                    if right.failure is Some {
                        right
                    } else {
                        done(
                            call_emitted(
                                right.context,
                                "sub"@,
                                opened.functions["sub"@].0,
                                id,
                                seq![left.context.out, right.context.out],
                            ),
                        )
                    }
                }
            },
        }
    }
}

/// The label that a conditional jumps to where the tested value is zero.
pub open spec fn zero_label(test: BooleanTest, id: nat) -> Seq<char> {
    match test {
        BooleanTest::Equals => fresh_name("if_true"@, id),
        BooleanTest::NotEquals => fresh_name("if_false"@, id),
    }
}

/// The label at the end of a conditional.
pub open spec fn end_label(id: nat) -> Seq<char> {
    fresh_name("if_end"@, id)
}

/// The label at the start of a loop.
pub open spec fn loop_label(id: nat) -> Seq<char> {
    fresh_name("for"@, id)
}

/// The label behind a loop.
pub open spec fn loop_end_label(id: nat) -> Seq<char> {
    fresh_name("for_end"@, id)
}

/// What compiling the instruction `i` in the state `c` leads to.
pub open spec fn compiled_instruction(i: InstructionView, c: ContextView) -> Outcome
    decreases i, 0nat,
{
    match i {
        InstructionView::Expression(e) => compiled_expression(e, c),
        InstructionView::If(test, then_block, else_block) => {
            if c.exhausted() {
                failed(c, Failure::CounterExhausted)
            } else {
                let id = c.counter + 1;
                let tested = compiled_test(test, c.with_counter(id));
                if tested.failure is Some {
                    tested
                } else {
                    let branch = tested.context.emit(
                        line_if_zero(tested.context.out, zero_label(test.1, id)),
                    );
                    // Runs where the value is not zero.
                    let first = match test.1 {
                        BooleanTest::Equals => compiled_optional(else_block, branch),
                        BooleanTest::NotEquals => compiled_block(
                            then_block.code,
                            then_block.code.len(),
                            branch,
                        ),
                    };
                    if first.failure is Some {
                        first
                    } else {
                        let landed = first.context.emit(line_jump(end_label(id))).emit(
                            line_label(zero_label(test.1, id)),
                        );
                        // Runs where the value is zero.
                        let second = match test.1 {
                            BooleanTest::Equals => compiled_block(
                                then_block.code,
                                then_block.code.len(),
                                landed,
                            ),
                            BooleanTest::NotEquals => compiled_optional(else_block, landed),
                        };
                        if second.failure is Some {
                            second
                        } else {
                            done(second.context.emit(line_label(end_label(id))))
                        }
                    }
                }
            }
        },
        InstructionView::Loop(body) => {
            if c.exhausted() {
                failed(c, Failure::CounterExhausted)
            } else {
                let id = c.counter + 1;
                let entered = c.with_counter(id).emit(line_label(loop_label(id))).enter_loop(id);
                let inside = compiled_block(body.code, body.code.len(), entered);
                if inside.failure is Some {
                    inside
                } else {
                    done(inside.context.leave_loop().emit(line_label(loop_end_label(id))))
                }
            }
        },
        InstructionView::Return(value) => {
            match c.function {
                None => failed(c, Failure::ReturnOutsideFunction),
                Some(f) => match value {
                    None => done(c.emit("ret"@)),
                    Some(e) => {
                        let o = compiled_expression(e, c);
                        if o.failure is Some {
                            o
                        } else {
                            done(
                                o.context.emit(line_set(out_cell(f.name), o.context.out)).emit(
                                    "ret"@,
                                ),
                            )
                        }
                    },
                },
            }
        },
        InstructionView::Assign(target, value) => {
            let o = compiled_expression(value, c);
            if o.failure is Some {
                o
            } else {
                done(o.context.emit(line_set(target, o.context.out)))
            }
        },
        InstructionView::Continue => {
            if c.loops.len() == 0 {
                failed(c, Failure::NoEnclosingLoop)
            } else {
                done(c.emit(line_jump(loop_label(c.loops.last()))))
            }
        },
        InstructionView::Break => {
            if c.loops.len() == 0 {
                failed(c, Failure::NoEnclosingLoop)
            } else {
                done(c.emit(line_jump(loop_end_label(c.loops.last()))))
            }
        },
    }
}

/// What compiling a block that may be absent leads to.
pub open spec fn compiled_optional(block: Option<CodeBlockView>, c: ContextView) -> Outcome
    decreases block, 0nat,
{
    match block {
        Some(b) => compiled_block(b.code, b.code.len(), c),
        None => done(c),
    }
}

/// What compiling the first `n` instructions of `code` leads to, in order,
/// up to the first that fails.
pub open spec fn compiled_block(code: Seq<InstructionView>, n: nat, c: ContextView) -> Outcome
    decreases code, n,
{
    if n == 0 || n > code.len() {
        done(c)
    } else {
        let before = compiled_block(code, (n - 1) as nat, c);
        if before.failure is Some {
            before
        } else {
            compiled_instruction(code[n - 1], before.context)
        }
    }
}

/// What compiling a whole block leads to.
pub open spec fn compiled_code(block: CodeBlockView, c: ContextView) -> Outcome {
    compiled_block(block.code, block.code.len(), c)
}

/// What compiling a top-level element leads to. `main` is compiled in place,
/// with no function around it. Any other function is wrapped in `func` and
/// `end_func`, gets a cell for its result, and is declared once its body is
/// compiled. A function of the target is declared and emits nothing.
pub open spec fn compiled_element(e: FileElementView, c: ContextView) -> Outcome {
    match e {
        FileElementView::Function(name, parameters, body) => {
            if name == "main"@ {
                compiled_code(body, c.with_function(None))
            } else {
                let opened = c.emit(line_let(out_cell(name))).emit(
                    line_func(name, parameters),
                ).with_function(
                    Some(FunctionContextView { name, arguments: parameters.to_set() }),
                );
                let inside = compiled_code(body, opened);
                if inside.failure is Some {
                    inside
                } else {
                    done(inside.context.emit("end_func"@).register(name, false, parameters))
                }
            }
        },
        FileElementView::FunctionExtern(name, parameters) => done(
            c.register(name, true, parameters),
        ),
    }
}

/// What compiling the first `n` elements of a file leads to, in order, up to
/// the first that fails.
pub open spec fn compiled_elements(
    elements: Seq<FileElementView>,
    n: nat,
    c: ContextView,
) -> Outcome
    decreases n,
{
    if n == 0 || n > elements.len() {
        done(c)
    } else {
        let before = compiled_elements(elements, (n - 1) as nat, c);
        if before.failure is Some {
            before
        } else {
            compiled_element(elements[n - 1], before.context)
        }
    }
}

/// What compiling a whole file from the initial state leads to.
pub open spec fn compiled_file(elements: Seq<FileElementView>) -> Outcome {
    compiled_elements(elements, elements.len(), ContextView::initial())
}


/// Once an argument has failed, the arguments behind it change nothing.
pub proof fn lemma_arguments_stop(args: Seq<ExpressionView>, n: nat, m: nat, c: ContextView)
    requires
        n <= m <= args.len(),
        compiled_arguments(args, n, c).failure is Some,
    ensures
        compiled_arguments(args, m, c) == compiled_arguments(args, n, c),
    decreases m,
{
    if n < m {
        lemma_arguments_stop(args, n, (m - 1) as nat, c);
    }
}

/// Once an instruction has failed, the instructions behind it change nothing.
pub proof fn lemma_block_stops(code: Seq<InstructionView>, n: nat, m: nat, c: ContextView)
    requires
        n <= m <= code.len(),
        compiled_block(code, n, c).failure is Some,
    ensures
        compiled_block(code, m, c) == compiled_block(code, n, c),
    decreases m,
{
    if n < m {
        lemma_block_stops(code, n, (m - 1) as nat, c);
    }
}

/// Once an element has failed, the elements behind it change nothing.
pub proof fn lemma_elements_stop(elements: Seq<FileElementView>, n: nat, m: nat, c: ContextView)
    requires
        n <= m <= elements.len(),
        compiled_elements(elements, n, c).failure is Some,
    ensures
        compiled_elements(elements, m, c) == compiled_elements(elements, n, c),
    decreases m,
{
    if n < m {
        lemma_elements_stop(elements, n, (m - 1) as nat, c);
    }
}

/// The declared functions as the contracts see them: each with the views of
/// its parameters.
pub open spec fn signatures(m: Map<Seq<char>, (bool, Vec<String>)>) -> Map<
    Seq<char>,
    (bool, Seq<Seq<char>>),
> {
    Map::new(|k: Seq<char>| m.contains_key(k), |k: Seq<char>| (m[k].0, texts(m[k].1@)))
}

/// The loop ids as natural numbers.
pub open spec fn ids(loops: Seq<usize>) -> Seq<nat> {
    loops.map_values(|id: usize| id as nat)
}

/// The function whose body is being compiled.
pub struct FunctionContext {
    arguments: StringHashSet,
    name: String,
}

impl View for FunctionContext {
    type V = FunctionContextView;

    closed spec fn view(&self) -> FunctionContextView {
        FunctionContextView { name: self.name@, arguments: self.arguments@ }
    }
}

impl FunctionContext {
    /// The context of the function `name` with the given parameters.
    pub fn new(name: &str, parameters: &Vec<String>) -> (f: FunctionContext)
        ensures
            f@ == (FunctionContextView { name: name@, arguments: texts(parameters@).to_set() }),
    {
        let mut arguments = StringHashSet::new();
        let mut i: usize = 0;
        while i < parameters.len()
            invariant
                i <= parameters.len(),
                forall|x: Seq<char>|
                    arguments@.contains(x) <==> exists|j: int|
                        0 <= j < i && #[trigger] texts(parameters@)[j] == x,
            decreases parameters.len() - i,
        {
            let ghost before = arguments@;
            arguments.insert(parameters[i].clone());
            assert(texts(parameters@)[i as int] == parameters[i as int]@);
            assert forall|x: Seq<char>|
                arguments@.contains(x) <==> exists|j: int|
                    0 <= j < i + 1 && #[trigger] texts(parameters@)[j] == x by {
                if arguments@.contains(x) {
                    if x == parameters[i as int]@ {
                        assert(texts(parameters@)[i as int] == x);
                    } else {
                        assert(before.contains(x));
                    }
                }
            }
            i = i + 1;
        }
        assert(arguments@ =~= texts(parameters@).to_set()) by {
            assert forall|x: Seq<char>|
                arguments@.contains(x) <==> texts(parameters@).to_set().contains(x) by {
                if texts(parameters@).to_set().contains(x) {
                    assert(texts(parameters@).contains(x));
                }
            }
        }
        FunctionContext { arguments, name: String::from_str(name) }
    }

    /// The function's name.
    pub fn name(&self) -> (name: &String)
        ensures
            name@ == self@.name,
    {
        &self.name
    }

    /// Whether `name` is one of the function's parameters.
    pub fn is_argument(&self, name: &str) -> (found: bool)
        ensures
            found == self@.arguments.contains(name@),
    {
        self.arguments.contains(name)
    }
}

/// The state of one compilation.
pub struct CompilationContext {
    /// Each declared function: whether the target supplies it, and its
    /// parameters.
    pub functions_refs: StringHashMap<(bool, Vec<String>)>,
    /// The last fresh id that was handed out.
    pub counter: usize,
    /// The lines emitted so far.
    pub asm_file: Vec<String>,
    /// Where the value of the last compiled expression stands.
    pub current_expression_out_expr: String,
    /// The function around the code being compiled; `None` in `main`.
    pub current_function_context: Option<FunctionContext>,
    /// The ids of the loops around the code being compiled, innermost last.
    pub loops: Vec<usize>,
    /// The variables declared so far.
    pub existing_vars: StringHashSet,
}

impl View for CompilationContext {
    type V = ContextView;

    open spec fn view(&self) -> ContextView {
        ContextView {
            functions: signatures(self.functions_refs@),
            counter: self.counter as nat,
            lines: texts(self.asm_file@),
            out: self.current_expression_out_expr@,
            function: match self.current_function_context {
                Some(f) => Some(f@),
                None => None,
            },
            loops: ids(self.loops@),
            vars: self.existing_vars@,
        }
    }
}

impl Default for CompilationContext {
    fn default() -> (c: CompilationContext)
        ensures
            c@ == ContextView::initial(),
    {
        CompilationContext::new()
    }
}

/// `a` followed by `b`.
fn concat2(a: &str, b: &str) -> (out: String)
    ensures
        out@ == a@ + b@,
{
    let mut out = String::from_str(a);
    out.append(b);
    out
}

/// `a`, `b` and `c` in a row.
fn concat3(a: &str, b: &str, c: &str) -> (out: String)
    ensures
        out@ == a@ + b@ + c@,
{
    let mut out = String::from_str(a);
    out.append(b);
    out.append(c);
    out
}

/// `a`, `b`, `c` and `d` in a row.
fn concat4(a: &str, b: &str, c: &str, d: &str) -> (out: String)
    ensures
        out@ == a@ + b@ + c@ + d@,
{
    let mut out = String::from_str(a);
    out.append(b);
    out.append(c);
    out.append(d);
    out
}

/// The name made of `kind` and the numeral of `id`.
fn make_fresh_name(kind: &str, id: usize) -> (out: String)
    ensures
        out@ == fresh_name(kind@, id as nat),
{
    let numeral = decimal_string(id);
    concat2(kind, numeral.as_str())
}

/// A copy of a list of strings.
fn copy_strings(list: &Vec<String>) -> (out: Vec<String>)
    ensures
        texts(out@) == texts(list@),
{
    let mut out: Vec<String> = Vec::new();
    let mut i: usize = 0;
    while i < list.len()
        invariant
            i <= list.len(),
            out.len() == i,
            forall|j: int| 0 <= j < i ==> out[j]@ == list[j]@,
        decreases list.len() - i,
    {
        out.push(list[i].clone());
        i = i + 1;
    }
    assert(texts(out@) =~= texts(list@));
    out
}

impl CompilationContext {
    /// The state before anything is compiled.
    pub fn new() -> (c: CompilationContext)
        ensures
            c@ == ContextView::initial(),
    {
        let c = CompilationContext {
            functions_refs: StringHashMap::new(),
            counter: 0,
            asm_file: Vec::new(),
            current_expression_out_expr: String::new(),
            current_function_context: None,
            loops: Vec::new(),
            existing_vars: StringHashSet::new(),
        };
        assert(c@ =~= ContextView::initial());
        c
    }

    /// Whether the function `fnname` is declared and takes `arity`
    /// arguments; on success, whether the target supplies it.
    fn check_call(&self, fnname: &str, arity: usize) -> (r: Result<bool, CompileError>)
        ensures
            failure_of(r) == call_refusal(self@, fnname@, arity as nat),
            r matches Ok(is_extern) ==> is_extern == self@.functions[fnname@].0,
    {
        match self.functions_refs.get(fnname) {
            None => Err(CompileError::UnknownFunction(String::from_str(fnname))),
            Some(signature) => {
                if signature.1.len() != arity {
                    Err(CompileError::WrongArgumentCount)
                } else {
                    Ok(signature.0)
                }
            },
        }
    }

    /// Checks a call of `fnname` with the arguments `expressions`: the
    /// function must be declared, and take as many arguments as there are.
    pub fn check_func(&self, fnname: &str, expressions: &Vec<Expression>) -> (r: Result<
        (),
        CompileError,
    >)
        ensures
            failure_of(r) == call_refusal(self@, fnname@, expressions.len() as nat),
    {
        match self.check_call(fnname, expressions.len()) {
            Ok(_) => Ok(()),
            Err(e) => Err(e),
        }
    }

    /// Hands out the next fresh id.
    pub fn count(&mut self) -> (id: usize)
        requires
            !old(self)@.exhausted(),
        ensures
            id == old(self).counter + 1,
            final(self)@ == old(self)@.with_counter(id as nat),
    {
        self.counter = self.counter + 1;
        self.counter
    }

    /// Emits one line.
    pub fn add(&mut self, string: String)
        ensures
            final(self)@ == old(self)@.emit(string@),
    {
        self.asm_file.push(string);
        assert(self@ =~= old(self)@.emit(string@));
    }

    /// Emits one line.
    pub fn add_str(&mut self, string: &str)
        ensures
            final(self)@ == old(self)@.emit(string@),
    {
        self.add(String::from_str(string));
    }

    /// Sets the place of the last value.
    fn set_out(&mut self, out: String)
        ensures
            final(self)@ == old(self)@.with_out(out@),
    {
        self.current_expression_out_expr = out;
    }

    /// Emits the lines of a call whose arguments stand in `places`.
    fn emit_call(&mut self, name: &str, is_extern: bool, id: usize, places: &Vec<String>)
        ensures
            final(self)@ == call_emitted(
                old(self)@,
                name@,
                is_extern,
                id as nat,
                texts(places@),
            ),
    {
        let list = join_spaces(places);
        if is_extern {
            self.add(concat3(name, " ", list.as_str()));
        } else {
            self.add(concat4("call ", name, " ", list.as_str()));
            let tmp = make_fresh_name("TMP", id);
            self.add(concat3("let ", tmp.as_str(), " 0"));
            let cell = concat2(name, "_out");
            self.add(concat4("set ", tmp.as_str(), " ", cell.as_str()));
            self.set_out(tmp);
        }
    }
}

/// Whether `e` is the literal zero.
fn is_zero_literal(e: &Expression) -> (zero: bool)
    ensures
        zero == is_zero(e@),
{
    match e {
        Expression::Number(n) => *n == 0,
        _ => false,
    }
}

/// Compiles the arguments of a call from the left and returns the place of
/// each value.
fn compile_arguments(args: &Vec<Expression>, context: &mut CompilationContext) -> (r: Result<
    Vec<String>,
    CompileError,
>)
    ensures
        ({
            let o = compiled_arguments(
                expression_views(*args, args.len() as nat),
                args.len() as nat,
                old(context)@,
            );
            &&& final(context)@ == o.context
            &&& failure_of(r) == o.failure
            &&& r matches Ok(places) ==> texts(places@) == o.outs
        }),
    decreases args, 0nat,
{
    let ghost views = expression_views(*args, args.len() as nat);
    let ghost start = context@;
    proof {
        lemma_expression_views(*args, args.len() as nat);
    }
    let mut places: Vec<String> = Vec::new();
    let mut i: usize = 0;
    assert(texts(places@) =~= Seq::<Seq<char>>::empty());
    while i < args.len()
        invariant
            i <= args.len(),
            start == old(context)@,
            views == expression_views(*args, args.len() as nat),
            views.len() == args.len(),
            forall|j: int| 0 <= j < args.len() ==> views[j] == args[j]@,
            compiled_arguments(views, i as nat, start).failure is None,
            context@ == compiled_arguments(views, i as nat, start).context,
            texts(places@) == compiled_arguments(views, i as nat, start).outs,
        decreases args.len() - i,
    {
        match args[i].compile(context) {
            Err(e) => {
                proof {
                    lemma_arguments_stop(views, (i + 1) as nat, args.len() as nat, start);
                }
                return Err(e);
            },
            Ok(_) => {},
        }
        let ghost before = texts(places@);
        places.push(context.current_expression_out_expr.clone());
        assert(texts(places@) =~= before.push(context@.out));
        i = i + 1;
    }
    Ok(places)
}

/// Compiles the value that a test compares with zero.
fn compile_test(test: &BooleanExpression, context: &mut CompilationContext) -> (r: Result<
    (),
    CompileError,
>)
    ensures
        final(context)@ == compiled_test(test@, old(context)@).context,
        failure_of(r) == compiled_test(test@, old(context)@).failure,
    decreases test, 0nat,
{
    if is_zero_literal(&test.2) {
        test.0.compile(context)
    } else if is_zero_literal(&test.0) {
        test.2.compile(context)
    } else {
        if context.counter == usize::MAX {
            return Err(CompileError::CounterExhausted);
        }
        let id = context.count();
        let is_extern = match context.check_call("sub", 2) {
            Ok(is_extern) => is_extern,
            Err(e) => {
                return Err(e);
            },
        };
        let mut places: Vec<String> = Vec::new();
        match test.0.compile(context) {
            Err(e) => {
                return Err(e);
            },
            Ok(_) => {},
        }
        places.push(context.current_expression_out_expr.clone());
        match test.2.compile(context) {
            Err(e) => {
                return Err(e);
            },
            Ok(_) => {},
        }
        places.push(context.current_expression_out_expr.clone());
        assert(texts(places@) =~= seq![places[0]@, places[1]@]);
        context.emit_call("sub", is_extern, id, &places);
        Ok(())
    }
}

/// Compiles a block that may be absent.
fn compile_optional(block: &Option<CodeBlock>, context: &mut CompilationContext) -> (r: Result<
    (),
    CompileError,
>)
    ensures
        ({
            let o = compiled_optional(
                match block {
                    Some(b) => Some(b@),
                    None => None,
                },
                old(context)@,
            );
            &&& final(context)@ == o.context
            &&& failure_of(r) == o.failure
        }),
    decreases block, 0nat,
{
    match block {
        Some(b) => b.compile(context),
        None => Ok(()),
    }
}

impl Expression {
    /// Compiles the expression: emits the lines that compute it and records
    /// where its value stands.
    pub fn compile(&self, context: &mut CompilationContext) -> (r: Result<(), CompileError>)
        ensures
            final(context)@ == compiled_expression(self@, old(context)@).context,
            failure_of(r) == compiled_expression(self@, old(context)@).failure,
        decreases self, 0nat,
    {
        match self {
            Expression::Number(n) => {
                let numeral = decimal_string(*n as usize);
                context.set_out(concat2("&", numeral.as_str()));
                Ok(())
            },
            Expression::Variable(name) => {
                let is_parameter = match &context.current_function_context {
                    Some(f) => f.is_argument(name.as_str()),
                    None => false,
                };
                if is_parameter {
                    context.set_out(concat2("$", name.as_str()));
                } else {
                    if !context.existing_vars.contains(name.as_str()) {
                        context.existing_vars.insert(name.clone());
                        assert(context@ =~= old(context)@.declare(name@));
                        context.add(concat3("let ", name.as_str(), " 0"));
                    }
                    context.set_out(name.clone());
                }
                Ok(())
            },
            Expression::FunctionCall(name, args) => {
                proof {
                    lemma_expression_views(*args, args.len() as nat);
                }
                if context.counter == usize::MAX {
                    return Err(CompileError::CounterExhausted);
                }
                let id = context.count();
                let is_extern = match context.check_call(name.as_str(), args.len()) {
                    Ok(is_extern) => is_extern,
                    Err(e) => {
                        return Err(e);
                    },
                };
                let places = match compile_arguments(args, context) {
                    Ok(places) => places,
                    Err(e) => {
                        return Err(e);
                    },
                };
                context.emit_call(name.as_str(), is_extern, id, &places);
                Ok(())
            },
        }
    }
}

impl CodeBlock {
    /// Compiles the instructions of the block in order and stops at the
    /// first that fails.
    pub fn compile(&self, context: &mut CompilationContext) -> (r: Result<(), CompileError>)
        ensures
            final(context)@ == compiled_code(self@, old(context)@).context,
            failure_of(r) == compiled_code(self@, old(context)@).failure,
        decreases self, 0nat,
    {
        let ghost views = self@.code;
        let ghost start = context@;
        proof {
            lemma_instruction_views(self.code, self.code.len() as nat);
        }
        let mut i: usize = 0;
        while i < self.code.len()
            invariant
                i <= self.code.len(),
                start == old(context)@,
                views == self@.code,
                views.len() == self.code.len(),
                forall|j: int| 0 <= j < self.code.len() ==> views[j] == self.code[j]@,
                compiled_block(views, i as nat, start).failure is None,
                context@ == compiled_block(views, i as nat, start).context,
                decreases_to!(self => self.code),
            decreases self.code.len() - i,
        {
            match self.code[i].compile(context) {
                Err(e) => {
                    proof {
                        lemma_block_stops(views, (i + 1) as nat, self.code.len() as nat, start);
                    }
                    return Err(e);
                },
                Ok(_) => {},
            }
            i = i + 1;
        }
        Ok(())
    }
}

/// Compiles a conditional: the tested value, the jump taken where it is
/// zero, the block run where it is not, and behind the label the block run
/// where it is.
fn compile_conditional(instruction: &Instruction, context: &mut CompilationContext) -> (r: Result<
    (),
    CompileError,
>)
    requires
        instruction is If,
    ensures
        final(context)@ == compiled_instruction(instruction@, old(context)@).context,
        failure_of(r) == compiled_instruction(instruction@, old(context)@).failure,
    decreases instruction, 0nat,
{
    match instruction {
        Instruction::If(test, then_block, else_block) => {
            if context.counter == usize::MAX {
                return Err(CompileError::CounterExhausted);
            }
            let id = context.count();
            match compile_test(test, context) {
                Err(e) => {
                    return Err(e);
                },
                Ok(_) => {},
            }
            let zero = match test.1 {
                BooleanTest::Equals => make_fresh_name("if_true", id),
                BooleanTest::NotEquals => make_fresh_name("if_false", id),
            };
            let end = make_fresh_name("if_end", id);
            let place = context.current_expression_out_expr.clone();
            context.add(concat4("if_0 ", place.as_str(), " '", zero.as_str()));
            let first = match test.1 {
                BooleanTest::Equals => compile_optional(else_block, context),
                BooleanTest::NotEquals => then_block.compile(context),
            };
            match first {
                Err(e) => {
                    return Err(e);
                },
                Ok(_) => {},
            }
            context.add(concat2("jump '", end.as_str()));
            context.add(concat2("label '", zero.as_str()));
            let second = match test.1 {
                BooleanTest::Equals => then_block.compile(context),
                BooleanTest::NotEquals => compile_optional(else_block, context),
            };
            match second {
                Err(e) => {
                    return Err(e);
                },
                Ok(_) => {},
            }
            context.add(concat2("label '", end.as_str()));
            Ok(())
        },
        _ => Ok(()),
    }
}

/// Compiles a loop: its start label, its body with the loop entered, and its
/// end label.
fn compile_loop(instruction: &Instruction, context: &mut CompilationContext) -> (r: Result<
    (),
    CompileError,
>)
    requires
        instruction is Loop,
    ensures
        final(context)@ == compiled_instruction(instruction@, old(context)@).context,
        failure_of(r) == compiled_instruction(instruction@, old(context)@).failure,
    decreases instruction, 0nat,
{
    match instruction {
        Instruction::Loop(body) => {
            if context.counter == usize::MAX {
                return Err(CompileError::CounterExhausted);
            }
            let id = context.count();
            let start = make_fresh_name("for", id);
            context.add(concat2("label '", start.as_str()));
            let ghost labelled = context@;
            context.loops.push(id);
            assert(context@ =~= labelled.enter_loop(id as nat));
            match body.compile(context) {
                Err(e) => {
                    return Err(e);
                },
                Ok(_) => {},
            }
            let ghost inside = context@;
            context.loops.pop();
            assert(context@ =~= inside.leave_loop());
            let end = make_fresh_name("for_end", id);
            context.add(concat2("label '", end.as_str()));
            Ok(())
        },
        _ => Ok(()),
    }
}

/// Compiles a `return`: the value, if there is one, goes to the function's
/// result cell; then control goes back to the caller.
fn compile_return(value: &Option<Expression>, context: &mut CompilationContext) -> (r: Result<
    (),
    CompileError,
>)
    ensures
        ({
            let o = compiled_instruction(
                InstructionView::Return(
                    match value {
                        Some(e) => Some(e@),
                        None => None,
                    },
                ),
                old(context)@,
            );
            &&& final(context)@ == o.context
            &&& failure_of(r) == o.failure
        }),
    decreases value, 0nat,
{
    let cell = match &context.current_function_context {
        None => {
            return Err(CompileError::ReturnOutsideFunction);
        },
        Some(f) => concat2(f.name().as_str(), "_out"),
    };
    match value {
        None => {},
        Some(e) => {
            match e.compile(context) {
                Err(e) => {
                    return Err(e);
                },
                Ok(_) => {},
            }
            let place = context.current_expression_out_expr.clone();
            context.add(concat4("set ", cell.as_str(), " ", place.as_str()));
        },
    }
    context.add_str("ret");
    Ok(())
}

/// Compiles a `continue` or, where `leave` is set, a `break`: a jump to the
/// start or the end label of the innermost loop.
fn compile_loop_jump(leave: bool, context: &mut CompilationContext) -> (r: Result<
    (),
    CompileError,
>)
    ensures
        ({
            let o = compiled_instruction(
                if leave {
                    InstructionView::Break
                } else {
                    InstructionView::Continue
                },
                old(context)@,
            );
            &&& final(context)@ == o.context
            &&& failure_of(r) == o.failure
        }),
{
    if context.loops.len() == 0 {
        return Err(CompileError::NoEnclosingLoop);
    }
    let id = context.loops[context.loops.len() - 1];
    let label = if leave {
        make_fresh_name("for_end", id)
    } else {
        make_fresh_name("for", id)
    };
    context.add(concat2("jump '", label.as_str()));
    Ok(())
}

impl Instruction {
    /// Compiles the instruction.
    pub fn compile(&self, context: &mut CompilationContext) -> (r: Result<(), CompileError>)
        ensures
            final(context)@ == compiled_instruction(self@, old(context)@).context,
            failure_of(r) == compiled_instruction(self@, old(context)@).failure,
        decreases self, 1nat,
    {
        match self {
            Instruction::Expression(e) => e.compile(context),
            Instruction::If(_, _, _) => compile_conditional(self, context),
            Instruction::Loop(_) => compile_loop(self, context),
            Instruction::Return(value) => compile_return(value, context),
            Instruction::Assign(target, value) => {
                match value.compile(context) {
                    Err(e) => {
                        return Err(e);
                    },
                    Ok(_) => {},
                }
                let place = context.current_expression_out_expr.clone();
                context.add(concat4("set ", target.as_str(), " ", place.as_str()));
                Ok(())
            },
            Instruction::Continue => compile_loop_jump(false, context),
            Instruction::Break => compile_loop_jump(true, context),
        }
    }
}

impl FileElement {
    /// Compiles a top-level element.
    pub fn compile(&self, context: &mut CompilationContext) -> (r: Result<(), CompileError>)
        ensures
            final(context)@ == compiled_element(self@, old(context)@).context,
            failure_of(r) == compiled_element(self@, old(context)@).failure,
    {
        match self {
            FileElement::Function(name, parameters, body) => {
                if same_text(name.as_str(), "main") {
                    context.current_function_context = None;
                    assert(context@ =~= old(context)@.with_function(None));
                    body.compile(context)
                } else {
                    let cell = concat2(name.as_str(), "_out");
                    context.add(concat3("let ", cell.as_str(), " 0"));
                    let list = join_spaces(parameters);
                    context.add(concat4("func ", name.as_str(), " ", list.as_str()));
                    let ghost emitted = context@;
                    context.current_function_context = Some(
                        FunctionContext::new(name.as_str(), parameters),
                    );
                    assert(context@ =~= emitted.with_function(
                        Some(
                            FunctionContextView {
                                name: name@,
                                arguments: texts(parameters@).to_set(),
                            },
                        ),
                    ));
                    match body.compile(context) {
                        Err(e) => {
                            return Err(e);
                        },
                        Ok(_) => {},
                    }
                    context.add_str("end_func");
                    let ghost closed = context@;
                    context.functions_refs.insert(name.clone(), (false, copy_strings(parameters)));
                    assert(context@ =~= closed.register(name@, false, texts(parameters@)));
                    Ok(())
                }
            },
            FileElement::FunctionExtern(name, parameters) => {
                context.functions_refs.insert(name.clone(), (true, copy_strings(parameters)));
                assert(context@ =~= old(context)@.register(name@, true, texts(parameters@)));
                Ok(())
            },
        }
    }
}

/// Compiles a whole file, element by element, and returns the lines of
/// pseudo-assembly. Stops at the first element that fails.
pub fn compile_file(elements: &Vec<FileElement>) -> (r: Result<Vec<String>, CompileError>)
    ensures
        failure_of(r) == compiled_file(element_views(elements@)).failure,
        r matches Ok(lines) ==> texts(lines@) == compiled_file(
            element_views(elements@),
        ).context.lines,
{
    let ghost views = element_views(elements@);
    let mut context = CompilationContext::new();
    let mut i: usize = 0;
    while i < elements.len()
        invariant
            i <= elements.len(),
            views == element_views(elements@),
            compiled_elements(views, i as nat, ContextView::initial()).failure is None,
            context@ == compiled_elements(views, i as nat, ContextView::initial()).context,
        decreases elements.len() - i,
    {
        match elements[i].compile(&mut context) {
            Err(e) => {
                proof {
                    lemma_elements_stop(
                        views,
                        (i + 1) as nat,
                        elements.len() as nat,
                        ContextView::initial(),
                    );
                }
                return Err(e);
            },
            Ok(_) => {},
        }
        i = i + 1;
    }
    Ok(context.asm_file)
}

} // verus!
