//! The syntax tree of the structured language, and its mathematical view.
//!
//! Each type of the tree has a view in which every name is a sequence of
//! characters and every list a sequence. The front end's contracts speak of
//! the views only, so two trees that spell the same program compile alike.

use vstd::prelude::*;
use crate::text::texts;

verus! {

/// An expression: a call, a variable or a number.
#[derive(Debug, PartialEq, Eq)]
pub enum Expression {
    /// The called function's name and the arguments, in order.
    FunctionCall(String, Vec<Expression>),
    /// A variable, or a parameter of the function around it.
    Variable(String),
    /// A literal.
    Number(u8),
}

/// The two comparisons that a conditional can make.
#[derive(Debug, Clone, Copy, PartialEq, Eq, Structural)]
pub enum BooleanTest {
    Equals,
    NotEquals,
}

/// A comparison of two expressions.
#[derive(Debug, PartialEq, Eq)]
pub struct BooleanExpression(pub Expression, pub BooleanTest, pub Expression);

/// A sequence of instructions, run in order.
#[derive(Debug, PartialEq, Eq)]
pub struct CodeBlock {
    pub code: Vec<Instruction>,
}

/// One statement of the language.
#[derive(Debug, PartialEq, Eq)]
pub enum Instruction {
    /// An expression evaluated for its effect.
    Expression(Expression),
    /// A test, the block run where it holds, and the block run where it does not.
    If(BooleanExpression, CodeBlock, Option<CodeBlock>),
    /// A block repeated until a `Break` leaves it.
    Loop(CodeBlock),
    /// The end of the function around it, with the value it hands back.
    Return(Option<Expression>),
    /// The variable assigned to, and the value.
    Assign(String, Box<Expression>),
    /// A jump to the start of the innermost loop.
    Continue,
    /// A jump behind the innermost loop.
    Break,
}

/// A top-level item of a source file.
#[derive(Debug, PartialEq, Eq)]
pub enum FileElement {
    /// A function: its name, its parameters and its body.
    Function(String, Vec<String>, CodeBlock),
    /// A function that the target supplies: its name and its parameters.
    FunctionExtern(String, Vec<String>),
}

/// The view of an [`Expression`].
pub enum ExpressionView {
    FunctionCall(Seq<char>, Seq<ExpressionView>),
    Variable(Seq<char>),
    Number(u8),
}

/// The view of a [`BooleanExpression`].
pub struct BooleanExpressionView(pub ExpressionView, pub BooleanTest, pub ExpressionView);

/// The view of a [`CodeBlock`].
pub struct CodeBlockView {
    pub code: Seq<InstructionView>,
}

/// The view of an [`Instruction`].
pub enum InstructionView {
    Expression(ExpressionView),
    If(BooleanExpressionView, CodeBlockView, Option<CodeBlockView>),
    Loop(CodeBlockView),
    Return(Option<ExpressionView>),
    Assign(Seq<char>, ExpressionView),
    Continue,
    Break,
}

/// The view of a [`FileElement`].
pub enum FileElementView {
    Function(Seq<char>, Seq<Seq<char>>, CodeBlockView),
    FunctionExtern(Seq<char>, Seq<Seq<char>>),
}

/// The view of one expression.
pub open spec fn expression_view(e: Expression) -> ExpressionView
    decreases e, 0nat,
{
    match e {
        Expression::FunctionCall(name, args) => ExpressionView::FunctionCall(
            name@,
            expression_views(args, args.len() as nat),
        ),
        Expression::Variable(name) => ExpressionView::Variable(name@),
        Expression::Number(n) => ExpressionView::Number(n),
    }
}

/// The views of the first `n` expressions of `list`.
pub open spec fn expression_views(list: Vec<Expression>, n: nat) -> Seq<ExpressionView>
    decreases list, n,
{
    if n == 0 || n > list.len() {
        Seq::empty()
    } else {
        expression_views(list, (n - 1) as nat).push(expression_view(list[n - 1]))
    }
}

/// The view of one instruction.
pub open spec fn instruction_view(i: Instruction) -> InstructionView
    decreases i, 0nat,
{
    match i {
        Instruction::Expression(e) => InstructionView::Expression(expression_view(e)),
        Instruction::If(test, then_block, else_block) => InstructionView::If(
            BooleanExpressionView(expression_view(test.0), test.1, expression_view(test.2)),
            block_view(then_block),
            match else_block {
                Some(block) => Some(block_view(block)),
                None => None,
            },
        ),
        Instruction::Loop(body) => InstructionView::Loop(block_view(body)),
        Instruction::Return(value) => InstructionView::Return(
            match value {
                Some(e) => Some(expression_view(e)),
                None => None,
            },
        ),
        Instruction::Assign(target, value) => InstructionView::Assign(
            target@,
            expression_view(*value),
        ),
        Instruction::Continue => InstructionView::Continue,
        Instruction::Break => InstructionView::Break,
    }
}

/// The views of the first `n` instructions of `list`.
pub open spec fn instruction_views(list: Vec<Instruction>, n: nat) -> Seq<InstructionView>
    decreases list, n,
{
    if n == 0 || n > list.len() {
        Seq::empty()
    } else {
        instruction_views(list, (n - 1) as nat).push(instruction_view(list[n - 1]))
    }
}

/// The view of one block.
pub open spec fn block_view(block: CodeBlock) -> CodeBlockView
    decreases block, 0nat,
{
    CodeBlockView { code: instruction_views(block.code, block.code.len() as nat) }
}

impl View for Expression {
    type V = ExpressionView;

    open spec fn view(&self) -> ExpressionView {
        expression_view(*self)
    }
}

impl View for BooleanExpression {
    type V = BooleanExpressionView;

    open spec fn view(&self) -> BooleanExpressionView {
        BooleanExpressionView(self.0@, self.1, self.2@)
    }
}

impl View for CodeBlock {
    type V = CodeBlockView;

    open spec fn view(&self) -> CodeBlockView {
        block_view(*self)
    }
}

impl View for Instruction {
    type V = InstructionView;

    open spec fn view(&self) -> InstructionView {
        instruction_view(*self)
    }
}

impl View for FileElement {
    type V = FileElementView;

    open spec fn view(&self) -> FileElementView {
        match self {
            FileElement::Function(name, parameters, body) => FileElementView::Function(
                name@,
                texts(parameters@),
                body@,
            ),
            FileElement::FunctionExtern(name, parameters) => FileElementView::FunctionExtern(
                name@,
                texts(parameters@),
            ),
        }
    }
}

/// The views of a list of file elements, in order.
pub open spec fn element_views(list: Seq<FileElement>) -> Seq<FileElementView> {
    list.map_values(|e: FileElement| e@)
}

/// The view of a list of expressions holds the view of each, in order.
pub proof fn lemma_expression_views(list: Vec<Expression>, n: nat)
    requires
        n <= list.len(),
    ensures
        expression_views(list, n).len() == n,
        forall|j: int| 0 <= j < n ==> (#[trigger] expression_views(list, n)[j]) == list[j]@,
    decreases n,
{
    if n > 0 {
        lemma_expression_views(list, (n - 1) as nat);
    }
}

/// The view of a list of instructions holds the view of each, in order.
pub proof fn lemma_instruction_views(list: Vec<Instruction>, n: nat)
    requires
        n <= list.len(),
    ensures
        instruction_views(list, n).len() == n,
        forall|j: int| 0 <= j < n ==> (#[trigger] instruction_views(list, n)[j]) == list[j]@,
    decreases n,
{
    if n > 0 {
        lemma_instruction_views(list, (n - 1) as nat);
    }
}

} // verus!
