//! From a parse tree to the syntax tree.
//!
//! A grammar turns a source text into a tree of nodes, each with the rule
//! that matched, the text that it matched and the nodes inside it. This
//! module reads such a tree: it checks the rule of each node, takes the parts
//! of each construct in their order, and builds the syntax tree of the file.

use vstd::prelude::*;
use crate::ast::{
    BooleanExpression, BooleanExpressionView, BooleanTest, CodeBlock, CodeBlockView,
    Expression, ExpressionView, FileElement, FileElementView, Instruction, InstructionView,
    element_views, expression_views, instruction_views, lemma_expression_views,
    lemma_instruction_views,
};
use crate::text::{parse_byte, parse_u8, same_text, texts};

verus! {

/// The rules of the grammar that the reader tells apart.
#[derive(Debug, Clone, Copy, PartialEq, Eq, Structural)]
pub enum Rule {
    /// A whole file.
    File,
    /// A function with its body.
    Function,
    /// The declaration of a function that the target supplies.
    ExternFunction,
    /// The end of the input.
    EndOfInput,
    /// A name.
    Literal,
    /// A number.
    Number,
    /// A comparison of two expressions.
    BooleanExpr,
    /// `==` or `!=`.
    Test,
    /// Any instruction.
    Instruction,
    /// An expression as an instruction.
    IExpr,
    /// A loop.
    ILoop,
    /// A `return`.
    IReturn,
    /// A `continue`.
    IContinue,
    /// A `break`.
    IBreak,
    /// An assignment.
    IAssign,
    /// A conditional.
    IfBlock,
    /// A block of instructions.
    CodeBlock,
    /// A call.
    FuncCall,
    /// Any expression.
    Expr,
    /// Nothing, where something may stand.
    Empty,
    /// Any other rule, such as a list of parameters or of arguments.
    Other,
}

/// A node of the parse tree.
#[derive(Debug, PartialEq, Eq)]
pub struct ParseNode {
    /// The rule that matched.
    pub rule: Rule,
    /// The text that it matched.
    pub text: String,
    /// The nodes inside it, in order.
    pub inner: Vec<ParseNode>,
}

/// A node of the parse tree, as the contracts see it.
pub struct NodeView {
    pub rule: Rule,
    pub text: Seq<char>,
    pub inner: Seq<NodeView>,
}

/// The view of one node.
pub open spec fn node_view(node: ParseNode) -> NodeView
    decreases node, 0nat,
{
    NodeView {
        rule: node.rule,
        text: node.text@,
        inner: node_views(node.inner, node.inner.len() as nat),
    }
}

/// The views of the first `n` nodes of `list`.
pub open spec fn node_views(list: Vec<ParseNode>, n: nat) -> Seq<NodeView>
    decreases list, n,
{
    if n == 0 || n > list.len() {
        Seq::empty()
    } else {
        node_views(list, (n - 1) as nat).push(node_view(list[n - 1]))
    }
}

impl View for ParseNode {
    type V = NodeView;

    open spec fn view(&self) -> NodeView {
        node_view(*self)
    }
}

/// The view of a list of nodes holds the view of each, in order.
pub proof fn lemma_node_views(list: Vec<ParseNode>, n: nat)
    requires
        n <= list.len(),
    ensures
        node_views(list, n).len() == n,
        forall|j: int| 0 <= j < n ==> (#[trigger] node_views(list, n)[j]) == list[j]@,
    decreases n,
{
    if n > 0 {
        lemma_node_views(list, (n - 1) as nat);
    }
}

/// What is read from a node.
#[derive(Debug, Clone, Copy, PartialEq, Eq, Structural)]
pub enum Reading {
    Name,
    Number,
    BooleanExpression,
    FileElement,
    Test,
    Instruction,
    CodeBlock,
    Expression,
}

/// Why a parse tree was refused.
pub enum ParseFailure {
    /// A node has a rule that what is read from it cannot have.
    InvalidRule(Reading, Rule),
    /// The text of a number spells no byte.
    InvalidNumber(Seq<char>),
    /// The text of a test is neither `==` nor `!=`.
    InvalidTest(Seq<char>),
    /// A construct lacks one of its parts.
    MissingPart(Rule),
}

/// The error that the reader returns; its view is a [`ParseFailure`].
#[derive(Debug, PartialEq, Eq)]
pub enum ParseError {
    /// A node has a rule that what is read from it cannot have.
    InvalidRule(Reading, Rule),
    /// The text of a number spells no byte.
    InvalidNumber(String),
    /// The text of a test is neither `==` nor `!=`.
    InvalidTest(String),
    /// A construct lacks one of its parts.
    MissingPart(Rule),
}

impl View for ParseError {
    type V = ParseFailure;

    open spec fn view(&self) -> ParseFailure {
        match self {
            ParseError::InvalidRule(reading, rule) => ParseFailure::InvalidRule(*reading, *rule),
            ParseError::InvalidNumber(text) => ParseFailure::InvalidNumber(text@),
            ParseError::InvalidTest(text) => ParseFailure::InvalidTest(text@),
            ParseError::MissingPart(rule) => ParseFailure::MissingPart(*rule),
        }
    }
}

/// The name of a rule, as the grammar spells it.
pub open spec fn rule_name(rule: Rule) -> Seq<char> {
    match rule {
        Rule::File => "file"@,
        Rule::Function => "function"@,
        Rule::ExternFunction => "extern_function"@,
        Rule::EndOfInput => "EOI"@,
        Rule::Literal => "literal"@,
        Rule::Number => "number"@,
        Rule::BooleanExpr => "boolean_expr"@,
        Rule::Test => "test"@,
        Rule::Instruction => "instruction"@,
        Rule::IExpr => "i_expr"@,
        Rule::ILoop => "i_loop"@,
        Rule::IReturn => "i_return"@,
        Rule::IContinue => "i_continue"@,
        Rule::IBreak => "i_break"@,
        Rule::IAssign => "i_assign"@,
        Rule::IfBlock => "if_block"@,
        Rule::CodeBlock => "code_block"@,
        Rule::FuncCall => "func_call"@,
        Rule::Expr => "expr"@,
        Rule::Empty => "empty"@,
        Rule::Other => "other"@,
    }
}

/// What is read, as a word of a message.
pub open spec fn reading_name(reading: Reading) -> Seq<char> {
    match reading {
        Reading::Name => "0"@,
        Reading::Number => "1"@,
        Reading::BooleanExpression => "2"@,
        Reading::FileElement => "4"@,
        Reading::Test => "5"@,
        Reading::Instruction => "6"@,
        Reading::CodeBlock => "7"@,
        Reading::Expression => "8"@,
    }
}

/// The text of a failure, as a user reads it.
pub open spec fn failure_text(f: ParseFailure) -> Seq<char> {
    match f {
        ParseFailure::InvalidRule(reading, rule) => "Invalid rule "@ + reading_name(reading)
            + " : "@ + rule_name(rule),
        ParseFailure::InvalidNumber(text) => "Invalid number : "@ + text,
        ParseFailure::InvalidTest(text) => "Invalid string : "@ + text,
        ParseFailure::MissingPart(rule) => "Missing part of "@ + rule_name(rule),
    }
}

impl Rule {
    /// The name of the rule, as the grammar spells it.
    pub fn name(&self) -> (name: &'static str)
        ensures
            name@ == rule_name(*self),
    {
        match self {
            Rule::File => "file",
            Rule::Function => "function",
            Rule::ExternFunction => "extern_function",
            Rule::EndOfInput => "EOI",
            Rule::Literal => "literal",
            Rule::Number => "number",
            Rule::BooleanExpr => "boolean_expr",
            Rule::Test => "test",
            Rule::Instruction => "instruction",
            Rule::IExpr => "i_expr",
            Rule::ILoop => "i_loop",
            Rule::IReturn => "i_return",
            Rule::IContinue => "i_continue",
            Rule::IBreak => "i_break",
            Rule::IAssign => "i_assign",
            Rule::IfBlock => "if_block",
            Rule::CodeBlock => "code_block",
            Rule::FuncCall => "func_call",
            Rule::Expr => "expr",
            Rule::Empty => "empty",
            Rule::Other => "other",
        }
    }
}

impl Reading {
    /// What is read, as a word of a message.
    pub fn name(&self) -> (name: &'static str)
        ensures
            name@ == reading_name(*self),
    {
        match self {
            Reading::Name => "0",
            Reading::Number => "1",
            Reading::BooleanExpression => "2",
            Reading::FileElement => "4",
            Reading::Test => "5",
            Reading::Instruction => "6",
            Reading::CodeBlock => "7",
            Reading::Expression => "8",
        }
    }
}

impl ParseError {
    /// The text of the error.
    pub fn message(&self) -> (text: String)
        ensures
            text@ == failure_text(self@),
    {
        match self {
            ParseError::InvalidRule(reading, rule) => {
                let mut text = String::from_str("Invalid rule ");
                text.append(reading.name());
                text.append(" : ");
                text.append(rule.name());
                text
            },
            ParseError::InvalidNumber(number) => {
                let mut text = String::from_str("Invalid number : ");
                text.append(number.as_str());
                text
            },
            ParseError::InvalidTest(test) => {
                let mut text = String::from_str("Invalid string : ");
                text.append(test.as_str());
                text
            },
            ParseError::MissingPart(rule) => {
                let mut text = String::from_str("Missing part of ");
                text.append(rule.name());
                text
            },
        }
    }
}

/// The name that a node stands for: the text of a literal.
pub open spec fn name_of(node: NodeView) -> Result<Seq<char>, ParseFailure> {
    if node.rule == Rule::Literal {
        Ok(node.text)
    } else {
        Err(ParseFailure::InvalidRule(Reading::Name, node.rule))
    }
}

/// The names that the first `n` nodes stand for, or the first failure.
pub open spec fn names_of(list: Seq<NodeView>, n: nat) -> Result<Seq<Seq<char>>, ParseFailure>
    decreases n,
{
    if n == 0 || n > list.len() {
        Ok(Seq::empty())
    } else {
        match names_of(list, (n - 1) as nat) {
            Err(e) => Err(e),
            Ok(names) => match name_of(list[n - 1]) {
                Err(e) => Err(e),
                Ok(name) => Ok(names.push(name)),
            },
        }
    }
}

/// The byte that a node stands for: the value of a number.
pub open spec fn number_of(node: NodeView) -> Result<u8, ParseFailure> {
    if node.rule == Rule::Number {
        match parse_u8(node.text) {
            Some(n) => Ok(n),
            None => Err(ParseFailure::InvalidNumber(node.text)),
        }
    } else {
        Err(ParseFailure::InvalidRule(Reading::Number, node.rule))
    }
}

/// The comparison that a node stands for.
pub open spec fn test_of(node: NodeView) -> Result<BooleanTest, ParseFailure> {
    if node.rule == Rule::Test {
        if node.text == "=="@ {
            Ok(BooleanTest::Equals)
        } else if node.text == "!="@ {
            Ok(BooleanTest::NotEquals)
        } else {
            Err(ParseFailure::InvalidTest(node.text))
        }
    } else {
        Err(ParseFailure::InvalidRule(Reading::Test, node.rule))
    }
}

/// The expression that a node stands for. A call holds its name and the
/// list of its arguments; a literal is a variable; a number is a number; an
/// expression holds what it is.
pub open spec fn expression_of(node: NodeView) -> Result<ExpressionView, ParseFailure>
    decreases node, 0nat,
{
    match node.rule {
        Rule::FuncCall => if node.inner.len() < 1 {
            Err(ParseFailure::MissingPart(node.rule))
        } else {
            match name_of(node.inner[0]) {
                Err(e) => Err(e),
                Ok(name) => if node.inner.len() < 2 {
                    Err(ParseFailure::MissingPart(node.rule))
                } else {
                    match expressions_of(node.inner[1].inner, node.inner[1].inner.len()) {
                        Err(e) => Err(e),
                        Ok(args) => Ok(ExpressionView::FunctionCall(name, args)),
                    }
                },
            }
        },
        Rule::Literal => Ok(ExpressionView::Variable(node.text)),
        Rule::Number => match number_of(node) {
            Err(e) => Err(e),
            Ok(n) => Ok(ExpressionView::Number(n)),
        },
        Rule::Expr => if node.inner.len() < 1 {
            Err(ParseFailure::MissingPart(node.rule))
        } else {
            expression_of(node.inner[0])
        },
        _ => Err(ParseFailure::InvalidRule(Reading::Expression, node.rule)),
    }
}

/// The expressions that the first `n` nodes stand for, or the first failure.
pub open spec fn expressions_of(list: Seq<NodeView>, n: nat) -> Result<
    Seq<ExpressionView>,
    ParseFailure,
>
    decreases list, n,
{
    if n == 0 || n > list.len() {
        Ok(Seq::empty())
    } else {
        match expressions_of(list, (n - 1) as nat) {
            Err(e) => Err(e),
            Ok(expressions) => match expression_of(list[n - 1]) {
                Err(e) => Err(e),
                Ok(e) => Ok(expressions.push(e)),
            },
        }
    }
}

/// The comparison of two expressions that a node stands for.
pub open spec fn boolean_expression_of(node: NodeView) -> Result<
    BooleanExpressionView,
    ParseFailure,
> {
    if node.rule != Rule::BooleanExpr {
        Err(ParseFailure::InvalidRule(Reading::BooleanExpression, node.rule))
    } else if node.inner.len() < 1 {
        Err(ParseFailure::MissingPart(node.rule))
    } else {
        match expression_of(node.inner[0]) {
            Err(e) => Err(e),
            Ok(left) => if node.inner.len() < 2 {
                Err(ParseFailure::MissingPart(node.rule))
            } else {
                match test_of(node.inner[1]) {
                    Err(e) => Err(e),
                    Ok(test) => if node.inner.len() < 3 {
                        Err(ParseFailure::MissingPart(node.rule))
                    } else {
                        match expression_of(node.inner[2]) {
                            Err(e) => Err(e),
                            Ok(right) => Ok(BooleanExpressionView(left, test, right)),
                        }
                    },
                }
            },
        }
    }
}

/// The expression that a node stands for, where none may stand.
pub open spec fn optional_expression_of(node: NodeView) -> Result<
    Option<ExpressionView>,
    ParseFailure,
> {
    if node.rule == Rule::Empty {
        Ok(None)
    } else {
        match expression_of(node) {
            Err(e) => Err(e),
            Ok(e) => Ok(Some(e)),
        }
    }
}

/// The instruction that a node stands for. An instruction holds what it is;
/// an expression, a loop and a `return` hold one part; an assignment holds
/// its target and its value; a conditional holds its test, its then block
/// and, where it has one, its else block.
pub open spec fn instruction_of(node: NodeView) -> Result<InstructionView, ParseFailure>
    decreases node, 0nat,
{
    match node.rule {
        Rule::IContinue => Ok(InstructionView::Continue),
        Rule::IBreak => Ok(InstructionView::Break),
        Rule::Instruction => if node.inner.len() < 1 {
            Err(ParseFailure::MissingPart(node.rule))
        } else {
            instruction_of(node.inner[0])
        },
        Rule::IExpr => if node.inner.len() < 1 {
            Err(ParseFailure::MissingPart(node.rule))
        } else {
            match expression_of(node.inner[0]) {
                Err(e) => Err(e),
                Ok(e) => Ok(InstructionView::Expression(e)),
            }
        },
        Rule::ILoop => if node.inner.len() < 1 {
            Err(ParseFailure::MissingPart(node.rule))
        } else {
            match code_block_of(node.inner[0]) {
                Err(e) => Err(e),
                Ok(body) => Ok(InstructionView::Loop(body)),
            }
        },
        Rule::IReturn => if node.inner.len() < 1 {
            Err(ParseFailure::MissingPart(node.rule))
        } else {
            match optional_expression_of(node.inner[0]) {
                Err(e) => Err(e),
                Ok(value) => Ok(InstructionView::Return(value)),
            }
        },
        Rule::IAssign => if node.inner.len() < 1 {
            Err(ParseFailure::MissingPart(node.rule))
        } else {
            match name_of(node.inner[0]) {
                Err(e) => Err(e),
                Ok(target) => if node.inner.len() < 2 {
                    Err(ParseFailure::MissingPart(node.rule))
                } else {
                    match expression_of(node.inner[1]) {
                        Err(e) => Err(e),
                        Ok(value) => Ok(InstructionView::Assign(target, value)),
                    }
                },
            }
        },
        Rule::IfBlock => if node.inner.len() < 1 {
            Err(ParseFailure::MissingPart(node.rule))
        } else {
            match boolean_expression_of(node.inner[0]) {
                Err(e) => Err(e),
                Ok(test) => if node.inner.len() < 2 {
                    Err(ParseFailure::MissingPart(node.rule))
                } else {
                    match code_block_of(node.inner[1]) {
                        Err(e) => Err(e),
                        Ok(then_block) => if node.inner.len() < 3 {
                            Err(ParseFailure::MissingPart(node.rule))
                        } else {
                            match optional_code_block_of(node.inner[2]) {
                                Err(e) => Err(e),
                                Ok(else_block) => Ok(
                                    InstructionView::If(test, then_block, else_block),
                                ),
                            }
                        },
                    }
                },
            }
        },
        _ => Err(ParseFailure::InvalidRule(Reading::Instruction, node.rule)),
    }
}

/// The instructions that the first `n` nodes stand for, or the first
/// failure.
pub open spec fn instructions_of(list: Seq<NodeView>, n: nat) -> Result<
    Seq<InstructionView>,
    ParseFailure,
>
    decreases list, n,
{
    if n == 0 || n > list.len() {
        Ok(Seq::empty())
    } else {
        match instructions_of(list, (n - 1) as nat) {
            Err(e) => Err(e),
            Ok(instructions) => match instruction_of(list[n - 1]) {
                Err(e) => Err(e),
                Ok(i) => Ok(instructions.push(i)),
            },
        }
    }
}

/// The block that a node stands for: the instructions inside it.
pub open spec fn code_block_of(node: NodeView) -> Result<CodeBlockView, ParseFailure>
    decreases node, 1nat,
{
    if node.rule == Rule::CodeBlock {
        match instructions_of(node.inner, node.inner.len()) {
            Err(e) => Err(e),
            Ok(code) => Ok(CodeBlockView { code }),
        }
    } else {
        Err(ParseFailure::InvalidRule(Reading::CodeBlock, node.rule))
    }
}

/// The block that a node stands for, where none may stand.
pub open spec fn optional_code_block_of(node: NodeView) -> Result<
    Option<CodeBlockView>,
    ParseFailure,
>
    decreases node, 2nat,
{
    if node.rule == Rule::Empty {
        Ok(None)
    } else {
        match code_block_of(node) {
            Err(e) => Err(e),
            Ok(block) => Ok(Some(block)),
        }
    }
}

/// The element of a file that a node stands for; none for the end of the
/// input.
pub open spec fn element_of(node: NodeView) -> Result<Option<FileElementView>, ParseFailure> {
    match node.rule {
        Rule::EndOfInput => Ok(None),
        Rule::Function | Rule::ExternFunction => if node.inner.len() < 1 {
            Err(ParseFailure::MissingPart(node.rule))
        } else {
            match name_of(node.inner[0]) {
                Err(e) => Err(e),
                Ok(name) => if node.inner.len() < 2 {
                    Err(ParseFailure::MissingPart(node.rule))
                } else {
                    match names_of(node.inner[1].inner, node.inner[1].inner.len()) {
                        Err(e) => Err(e),
                        Ok(parameters) => if node.rule == Rule::ExternFunction {
                            Ok(Some(FileElementView::FunctionExtern(name, parameters)))
                        } else if node.inner.len() < 3 {
                            Err(ParseFailure::MissingPart(node.rule))
                        } else {
                            match code_block_of(node.inner[2]) {
                                Err(e) => Err(e),
                                Ok(body) => Ok(
                                    Some(FileElementView::Function(name, parameters, body)),
                                ),
                            }
                        },
                    }
                },
            }
        },
        _ => Err(ParseFailure::InvalidRule(Reading::FileElement, node.rule)),
    }
}

/// The elements that the first `n` nodes stand for, or the first failure.
pub open spec fn elements_of(list: Seq<NodeView>, n: nat) -> Result<
    Seq<FileElementView>,
    ParseFailure,
>
    decreases n,
{
    if n == 0 || n > list.len() {
        Ok(Seq::empty())
    } else {
        match elements_of(list, (n - 1) as nat) {
            Err(e) => Err(e),
            Ok(elements) => match element_of(list[n - 1]) {
                Err(e) => Err(e),
                Ok(Some(element)) => Ok(elements.push(element)),
                Ok(None) => Ok(elements),
            },
        }
    }
}

/// The elements of the file that a parse tree stands for.
pub open spec fn file_of(node: NodeView) -> Result<Seq<FileElementView>, ParseFailure> {
    elements_of(node.inner, node.inner.len())
}


/// Once a node is refused, the nodes behind it change nothing.
pub proof fn lemma_names_stop(list: Seq<NodeView>, n: nat, m: nat)
    requires
        n <= m <= list.len(),
        names_of(list, n) is Err,
    ensures
        names_of(list, m) == names_of(list, n),
    decreases m,
{
    if n < m {
        lemma_names_stop(list, n, (m - 1) as nat);
    }
}

/// Once a node is refused, the nodes behind it change nothing.
pub proof fn lemma_expressions_stop(list: Seq<NodeView>, n: nat, m: nat)
    requires
        n <= m <= list.len(),
        expressions_of(list, n) is Err,
    ensures
        expressions_of(list, m) == expressions_of(list, n),
    decreases m,
{
    if n < m {
        lemma_expressions_stop(list, n, (m - 1) as nat);
    }
}

/// Once a node is refused, the nodes behind it change nothing.
pub proof fn lemma_instructions_stop(list: Seq<NodeView>, n: nat, m: nat)
    requires
        n <= m <= list.len(),
        instructions_of(list, n) is Err,
    ensures
        instructions_of(list, m) == instructions_of(list, n),
    decreases m,
{
    if n < m {
        lemma_instructions_stop(list, n, (m - 1) as nat);
    }
}

/// Once a node is refused, the nodes behind it change nothing.
pub proof fn lemma_elements_stop(list: Seq<NodeView>, n: nat, m: nat)
    requires
        n <= m <= list.len(),
        elements_of(list, n) is Err,
    ensures
        elements_of(list, m) == elements_of(list, n),
    decreases m,
{
    if n < m {
        lemma_elements_stop(list, n, (m - 1) as nat);
    }
}

/// Reads a name.
pub fn name_from(node: &ParseNode) -> (r: Result<String, ParseError>)
    ensures
        match r {
            Ok(name) => name_of(node@) == Ok::<Seq<char>, ParseFailure>(name@),
            Err(e) => name_of(node@) == Err::<Seq<char>, ParseFailure>(e@),
        },
{
    match node.rule {
        Rule::Literal => Ok(node.text.clone()),
        _ => Err(ParseError::InvalidRule(Reading::Name, node.rule)),
    }
}

/// Reads a list of names.
#[verifier::loop_isolation(false)]
pub fn names_from(list: &Vec<ParseNode>) -> (r: Result<Vec<String>, ParseError>)
    ensures
        match r {
            Ok(names) => names_of(node_views(*list, list.len() as nat), list.len() as nat)
                == Ok::<Seq<Seq<char>>, ParseFailure>(texts(names@)),
            Err(e) => names_of(node_views(*list, list.len() as nat), list.len() as nat) == Err::<
                Seq<Seq<char>>,
                ParseFailure,
            >(e@),
        },
{
    let ghost views = node_views(*list, list.len() as nat);
    proof {
        lemma_node_views(*list, list.len() as nat);
    }
    let mut names: Vec<String> = Vec::new();
    let mut i: usize = 0;
    assert(texts(names@) =~= Seq::<Seq<char>>::empty());
    while i < list.len()
        invariant
            i <= list.len(),
            names_of(views, i as nat) == Ok::<Seq<Seq<char>>, ParseFailure>(texts(names@)),
        decreases list.len() - i,
    {
        match name_from(&list[i]) {
            Err(e) => {
                proof {
                    lemma_names_stop(views, (i + 1) as nat, list.len() as nat);
                }
                return Err(e);
            },
            Ok(name) => {
                let ghost before = texts(names@);
                names.push(name);
                assert(texts(names@) =~= before.push(name@));
            },
        }
        i = i + 1;
    }
    Ok(names)
}

/// Reads a number.
pub fn number_from(node: &ParseNode) -> (r: Result<u8, ParseError>)
    ensures
        match r {
            Ok(n) => number_of(node@) == Ok::<u8, ParseFailure>(n),
            Err(e) => number_of(node@) == Err::<u8, ParseFailure>(e@),
        },
{
    match node.rule {
        Rule::Number => match parse_byte(node.text.as_str()) {
            Some(n) => Ok(n),
            None => Err(ParseError::InvalidNumber(node.text.clone())),
        },
        _ => Err(ParseError::InvalidRule(Reading::Number, node.rule)),
    }
}

/// Reads a test.
pub fn test_from(node: &ParseNode) -> (r: Result<BooleanTest, ParseError>)
    ensures
        match r {
            Ok(test) => test_of(node@) == Ok::<BooleanTest, ParseFailure>(test),
            Err(e) => test_of(node@) == Err::<BooleanTest, ParseFailure>(e@),
        },
{
    match node.rule {
        Rule::Test => {
            if same_text(node.text.as_str(), "==") {
                Ok(BooleanTest::Equals)
            } else if same_text(node.text.as_str(), "!=") {
                Ok(BooleanTest::NotEquals)
            } else {
                Err(ParseError::InvalidTest(node.text.clone()))
            }
        },
        _ => Err(ParseError::InvalidRule(Reading::Test, node.rule)),
    }
}

/// Reads an expression.
pub fn expression_from(node: &ParseNode) -> (r: Result<Expression, ParseError>)
    ensures
        match r {
            Ok(e) => expression_of(node@) == Ok::<ExpressionView, ParseFailure>(e@),
            Err(e) => expression_of(node@) == Err::<ExpressionView, ParseFailure>(e@),
        },
    decreases node, 0nat,
{
    proof {
        lemma_node_views(node.inner, node.inner.len() as nat);
    }
    match node.rule {
        Rule::FuncCall => {
            if node.inner.len() < 1 {
                return Err(ParseError::MissingPart(node.rule));
            }
            let name = match name_from(&node.inner[0]) {
                Err(e) => {
                    return Err(e);
                },
                Ok(name) => name,
            };
            if node.inner.len() < 2 {
                return Err(ParseError::MissingPart(node.rule));
            }
            proof {
                lemma_node_views(node.inner[1].inner, node.inner[1].inner.len() as nat);
            }
            assert(node@.inner[1].inner == node_views(
                node.inner[1].inner,
                node.inner[1].inner.len() as nat,
            ));
            let args = match expressions_from(&node.inner[1].inner) {
                Err(e) => {
                    return Err(e);
                },
                Ok(args) => args,
            };
            Ok(Expression::FunctionCall(name, args))
        },
        Rule::Literal => Ok(Expression::Variable(node.text.clone())),
        Rule::Number => match number_from(node) {
            Err(e) => Err(e),
            Ok(n) => Ok(Expression::Number(n)),
        },
        Rule::Expr => {
            if node.inner.len() < 1 {
                return Err(ParseError::MissingPart(node.rule));
            }
            expression_from(&node.inner[0])
        },
        _ => Err(ParseError::InvalidRule(Reading::Expression, node.rule)),
    }
}

/// Reads a list of expressions.
#[verifier::loop_isolation(false)]
pub fn expressions_from(list: &Vec<ParseNode>) -> (r: Result<Vec<Expression>, ParseError>)
    ensures
        match r {
            Ok(expressions) => expressions_of(
                node_views(*list, list.len() as nat),
                list.len() as nat,
            ) == Ok::<Seq<ExpressionView>, ParseFailure>(
                expression_views(expressions, expressions.len() as nat),
            ),
            Err(e) => expressions_of(node_views(*list, list.len() as nat), list.len() as nat)
                == Err::<Seq<ExpressionView>, ParseFailure>(e@),
        },
    decreases list, 0nat,
{
    let ghost views = node_views(*list, list.len() as nat);
    proof {
        lemma_node_views(*list, list.len() as nat);
    }
    let mut expressions: Vec<Expression> = Vec::new();
    let mut i: usize = 0;
    while i < list.len()
        invariant
            i <= list.len(),
            expressions.len() == i,
            expressions_of(views, i as nat) is Ok,
            expressions_of(views, i as nat)->Ok_0.len() == i,
            forall|j: int|
                0 <= j < i ==> expressions_of(views, i as nat)->Ok_0[j] == expressions[j]@,
        decreases list.len() - i,
    {
        match expression_from(&list[i]) {
            Err(e) => {
                proof {
                    lemma_expressions_stop(views, (i + 1) as nat, list.len() as nat);
                }
                return Err(e);
            },
            Ok(e) => {
                expressions.push(e);
            },
        }
        i = i + 1;
    }
    proof {
        lemma_expression_views(expressions, expressions.len() as nat);
        assert(expressions_of(views, list.len() as nat)->Ok_0 =~= expression_views(
            expressions,
            expressions.len() as nat,
        ));
    }
    Ok(expressions)
}

/// Reads a comparison of two expressions.
pub fn boolean_expression_from(node: &ParseNode) -> (r: Result<BooleanExpression, ParseError>)
    ensures
        match r {
            Ok(b) => boolean_expression_of(node@) == Ok::<BooleanExpressionView, ParseFailure>(
                b@,
            ),
            Err(e) => boolean_expression_of(node@) == Err::<BooleanExpressionView, ParseFailure>(
                e@,
            ),
        },
{
    proof {
        lemma_node_views(node.inner, node.inner.len() as nat);
    }
    match node.rule {
        Rule::BooleanExpr => {},
        _ => {
            return Err(ParseError::InvalidRule(Reading::BooleanExpression, node.rule));
        },
    }
    if node.inner.len() < 1 {
        return Err(ParseError::MissingPart(node.rule));
    }
    let left = match expression_from(&node.inner[0]) {
        Err(e) => {
            return Err(e);
        },
        Ok(left) => left,
    };
    if node.inner.len() < 2 {
        return Err(ParseError::MissingPart(node.rule));
    }
    let test = match test_from(&node.inner[1]) {
        Err(e) => {
            return Err(e);
        },
        Ok(test) => test,
    };
    if node.inner.len() < 3 {
        return Err(ParseError::MissingPart(node.rule));
    }
    let right = match expression_from(&node.inner[2]) {
        Err(e) => {
            return Err(e);
        },
        Ok(right) => right,
    };
    Ok(BooleanExpression(left, test, right))
}

/// Reads an expression where none may stand.
pub fn optional_expression_from(node: &ParseNode) -> (r: Result<Option<Expression>, ParseError>)
    ensures
        match r {
            Ok(Some(e)) => optional_expression_of(node@) == Ok::<
                Option<ExpressionView>,
                ParseFailure,
            >(Some(e@)),
            Ok(None) => optional_expression_of(node@) == Ok::<
                Option<ExpressionView>,
                ParseFailure,
            >(None),
            Err(e) => optional_expression_of(node@) == Err::<
                Option<ExpressionView>,
                ParseFailure,
            >(e@),
        },
{
    match node.rule {
        Rule::Empty => Ok(None),
        _ => match expression_from(node) {
            Err(e) => Err(e),
            Ok(e) => Ok(Some(e)),
        },
    }
}

/// Reads a conditional.
fn conditional_from(node: &ParseNode) -> (r: Result<Instruction, ParseError>)
    requires
        node.rule == Rule::IfBlock,
    ensures
        match r {
            Ok(i) => instruction_of(node@) == Ok::<InstructionView, ParseFailure>(i@),
            Err(e) => instruction_of(node@) == Err::<InstructionView, ParseFailure>(e@),
        },
    decreases node, 0nat,
{
    proof {
        lemma_node_views(node.inner, node.inner.len() as nat);
    }
    if node.inner.len() < 1 {
        return Err(ParseError::MissingPart(node.rule));
    }
    let test = match boolean_expression_from(&node.inner[0]) {
        Err(e) => {
            return Err(e);
        },
        Ok(test) => test,
    };
    if node.inner.len() < 2 {
        return Err(ParseError::MissingPart(node.rule));
    }
    let then_block = match code_block_from(&node.inner[1]) {
        Err(e) => {
            return Err(e);
        },
        Ok(block) => block,
    };
    if node.inner.len() < 3 {
        return Err(ParseError::MissingPart(node.rule));
    }
    let else_block = match optional_code_block_from(&node.inner[2]) {
        Err(e) => {
            return Err(e);
        },
        Ok(block) => block,
    };
    Ok(Instruction::If(test, then_block, else_block))
}

/// Reads an assignment.
fn assignment_from(node: &ParseNode) -> (r: Result<Instruction, ParseError>)
    requires
        node.rule == Rule::IAssign,
    ensures
        match r {
            Ok(i) => instruction_of(node@) == Ok::<InstructionView, ParseFailure>(i@),
            Err(e) => instruction_of(node@) == Err::<InstructionView, ParseFailure>(e@),
        },
{
    proof {
        lemma_node_views(node.inner, node.inner.len() as nat);
    }
    if node.inner.len() < 1 {
        return Err(ParseError::MissingPart(node.rule));
    }
    let target = match name_from(&node.inner[0]) {
        Err(e) => {
            return Err(e);
        },
        Ok(target) => target,
    };
    if node.inner.len() < 2 {
        return Err(ParseError::MissingPart(node.rule));
    }
    let value = match expression_from(&node.inner[1]) {
        Err(e) => {
            return Err(e);
        },
        Ok(value) => value,
    };
    Ok(Instruction::Assign(target, Box::new(value)))
}

/// Reads an instruction.
pub fn instruction_from(node: &ParseNode) -> (r: Result<Instruction, ParseError>)
    ensures
        match r {
            Ok(i) => instruction_of(node@) == Ok::<InstructionView, ParseFailure>(i@),
            Err(e) => instruction_of(node@) == Err::<InstructionView, ParseFailure>(e@),
        },
    decreases node, 1nat,
{
    proof {
        lemma_node_views(node.inner, node.inner.len() as nat);
    }
    match node.rule {
        Rule::IContinue => Ok(Instruction::Continue),
        Rule::IBreak => Ok(Instruction::Break),
        Rule::Instruction => {
            if node.inner.len() < 1 {
                return Err(ParseError::MissingPart(node.rule));
            }
            instruction_from(&node.inner[0])
        },
        Rule::IExpr => {
            if node.inner.len() < 1 {
                return Err(ParseError::MissingPart(node.rule));
            }
            match expression_from(&node.inner[0]) {
                Err(e) => Err(e),
                Ok(e) => Ok(Instruction::Expression(e)),
            }
        },
        Rule::ILoop => {
            if node.inner.len() < 1 {
                return Err(ParseError::MissingPart(node.rule));
            }
            match code_block_from(&node.inner[0]) {
                Err(e) => Err(e),
                Ok(body) => Ok(Instruction::Loop(body)),
            }
        },
        Rule::IReturn => {
            if node.inner.len() < 1 {
                return Err(ParseError::MissingPart(node.rule));
            }
            match optional_expression_from(&node.inner[0]) {
                Err(e) => Err(e),
                Ok(value) => Ok(Instruction::Return(value)),
            }
        },
        Rule::IAssign => assignment_from(node),
        Rule::IfBlock => conditional_from(node),
        _ => Err(ParseError::InvalidRule(Reading::Instruction, node.rule)),
    }
}

/// Reads a list of instructions.
#[verifier::loop_isolation(false)]
pub fn instructions_from(list: &Vec<ParseNode>) -> (r: Result<Vec<Instruction>, ParseError>)
    ensures
        match r {
            Ok(instructions) => instructions_of(
                node_views(*list, list.len() as nat),
                list.len() as nat,
            ) == Ok::<Seq<InstructionView>, ParseFailure>(
                instruction_views(instructions, instructions.len() as nat),
            ),
            Err(e) => instructions_of(node_views(*list, list.len() as nat), list.len() as nat)
                == Err::<Seq<InstructionView>, ParseFailure>(e@),
        },
    decreases list, 0nat,
{
    let ghost views = node_views(*list, list.len() as nat);
    proof {
        lemma_node_views(*list, list.len() as nat);
    }
    let mut instructions: Vec<Instruction> = Vec::new();
    let mut i: usize = 0;
    while i < list.len()
        invariant
            i <= list.len(),
            instructions.len() == i,
            instructions_of(views, i as nat) is Ok,
            instructions_of(views, i as nat)->Ok_0.len() == i,
            forall|j: int|
                0 <= j < i ==> instructions_of(views, i as nat)->Ok_0[j] == instructions[j]@,
        decreases list.len() - i,
    {
        match instruction_from(&list[i]) {
            Err(e) => {
                proof {
                    lemma_instructions_stop(views, (i + 1) as nat, list.len() as nat);
                }
                return Err(e);
            },
            Ok(instruction) => {
                instructions.push(instruction);
            },
        }
        i = i + 1;
    }
    proof {
        lemma_instruction_views(instructions, instructions.len() as nat);
        assert(instructions_of(views, list.len() as nat)->Ok_0 =~= instruction_views(
            instructions,
            instructions.len() as nat,
        ));
    }
    Ok(instructions)
}

/// Reads a block.
pub fn code_block_from(node: &ParseNode) -> (r: Result<CodeBlock, ParseError>)
    ensures
        match r {
            Ok(block) => code_block_of(node@) == Ok::<CodeBlockView, ParseFailure>(block@),
            Err(e) => code_block_of(node@) == Err::<CodeBlockView, ParseFailure>(e@),
        },
    decreases node, 2nat,
{
    proof {
        lemma_node_views(node.inner, node.inner.len() as nat);
    }
    assert(node@.inner == node_views(node.inner, node.inner.len() as nat));
    match node.rule {
        Rule::CodeBlock => match instructions_from(&node.inner) {
            Err(e) => Err(e),
            Ok(code) => Ok(CodeBlock { code }),
        },
        _ => Err(ParseError::InvalidRule(Reading::CodeBlock, node.rule)),
    }
}

/// Reads a block where none may stand.
pub fn optional_code_block_from(node: &ParseNode) -> (r: Result<Option<CodeBlock>, ParseError>)
    ensures
        match r {
            Ok(Some(block)) => optional_code_block_of(node@) == Ok::<
                Option<CodeBlockView>,
                ParseFailure,
            >(Some(block@)),
            Ok(None) => optional_code_block_of(node@) == Ok::<
                Option<CodeBlockView>,
                ParseFailure,
            >(None),
            Err(e) => optional_code_block_of(node@) == Err::<
                Option<CodeBlockView>,
                ParseFailure,
            >(e@),
        },
    decreases node, 3nat,
{
    match node.rule {
        Rule::Empty => Ok(None),
        _ => match code_block_from(node) {
            Err(e) => Err(e),
            Ok(block) => Ok(Some(block)),
        },
    }
}

/// Reads an element of a file; the end of the input is none.
pub fn element_from(node: &ParseNode) -> (r: Result<Option<FileElement>, ParseError>)
    ensures
        match r {
            Ok(Some(element)) => element_of(node@) == Ok::<
                Option<FileElementView>,
                ParseFailure,
            >(Some(element@)),
            Ok(None) => element_of(node@) == Ok::<Option<FileElementView>, ParseFailure>(None),
            Err(e) => element_of(node@) == Err::<Option<FileElementView>, ParseFailure>(e@),
        },
{
    proof {
        lemma_node_views(node.inner, node.inner.len() as nat);
    }
    let is_extern = match node.rule {
        Rule::EndOfInput => {
            return Ok(None);
        },
        Rule::Function => false,
        Rule::ExternFunction => true,
        _ => {
            return Err(ParseError::InvalidRule(Reading::FileElement, node.rule));
        },
    };
    if node.inner.len() < 1 {
        return Err(ParseError::MissingPart(node.rule));
    }
    let name = match name_from(&node.inner[0]) {
        Err(e) => {
            return Err(e);
        },
        Ok(name) => name,
    };
    if node.inner.len() < 2 {
        return Err(ParseError::MissingPart(node.rule));
    }
    proof {
        lemma_node_views(node.inner[1].inner, node.inner[1].inner.len() as nat);
    }
    assert(node@.inner[1].inner == node_views(
        node.inner[1].inner,
        node.inner[1].inner.len() as nat,
    ));
    let parameters = match names_from(&node.inner[1].inner) {
        Err(e) => {
            return Err(e);
        },
        Ok(parameters) => parameters,
    };
    if is_extern {
        return Ok(Some(FileElement::FunctionExtern(name, parameters)));
    }
    if node.inner.len() < 3 {
        return Err(ParseError::MissingPart(node.rule));
    }
    let body = match code_block_from(&node.inner[2]) {
        Err(e) => {
            return Err(e);
        },
        Ok(body) => body,
    };
    Ok(Some(FileElement::Function(name, parameters, body)))
}

/// Reads the parse tree of a file: the elements that the nodes inside it
/// stand for, in order.
#[verifier::loop_isolation(false)]
pub fn file_from(node: &ParseNode) -> (r: Result<Vec<FileElement>, ParseError>)
    ensures
        match r {
            Ok(elements) => file_of(node@) == Ok::<Seq<FileElementView>, ParseFailure>(
                element_views(elements@),
            ),
            Err(e) => file_of(node@) == Err::<Seq<FileElementView>, ParseFailure>(e@),
        },
{
    let ghost views = node@.inner;
    proof {
        lemma_node_views(node.inner, node.inner.len() as nat);
    }
    let mut elements: Vec<FileElement> = Vec::new();
    let mut i: usize = 0;
    assert(element_views(elements@) =~= Seq::<FileElementView>::empty());
    while i < node.inner.len()
        invariant
            i <= node.inner.len(),
            elements_of(views, i as nat) == Ok::<Seq<FileElementView>, ParseFailure>(
                element_views(elements@),
            ),
        decreases node.inner.len() - i,
    {
        match element_from(&node.inner[i]) {
            Err(e) => {
                proof {
                    lemma_elements_stop(views, (i + 1) as nat, node.inner.len() as nat);
                }
                return Err(e);
            },
            Ok(Some(element)) => {
                let ghost before = element_views(elements@);
                elements.push(element);
                assert(element_views(elements@) =~= before.push(element@));
            },
            Ok(None) => {},
        }
        i = i + 1;
    }
    Ok(elements)
}

} // verus!
