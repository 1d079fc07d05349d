use cythanc::ast::{BooleanTest, Expression, FileElement, Instruction};
use cythanc::compiler::compile_file;
use cythanc::parser::{
    boolean_expression_from, code_block_from, element_from, expression_from, expressions_from,
    file_from, instruction_from, instructions_from, name_from, names_from, number_from,
    optional_code_block_from, optional_expression_from, test_from, ParseError, ParseNode,
    Reading, Rule,
};

fn node(rule: Rule, text: &str, inner: Vec<ParseNode>) -> ParseNode {
    ParseNode { rule, text: text.to_string(), inner }
}

fn leaf(rule: Rule, text: &str) -> ParseNode {
    node(rule, text, vec![])
}

fn literal(name: &str) -> ParseNode {
    leaf(Rule::Literal, name)
}

fn number(text: &str) -> ParseNode {
    leaf(Rule::Number, text)
}

fn expr(inner: ParseNode) -> ParseNode {
    node(Rule::Expr, "", vec![inner])
}

fn list(inner: Vec<ParseNode>) -> ParseNode {
    node(Rule::Other, "", inner)
}

fn call(name: &str, args: Vec<ParseNode>) -> ParseNode {
    node(Rule::FuncCall, "", vec![literal(name), list(args)])
}

fn instruction(inner: ParseNode) -> ParseNode {
    node(Rule::Instruction, "", vec![inner])
}

fn block(inner: Vec<ParseNode>) -> ParseNode {
    node(Rule::CodeBlock, "", inner)
}

#[test]
fn name_is_the_text_of_a_literal() {
    assert_eq!(name_from(&literal("abc")), Ok("abc".to_string()));
    assert_eq!(
        name_from(&number("12")),
        Err(ParseError::InvalidRule(Reading::Name, Rule::Number))
    );
    assert_eq!(
        names_from(&vec![literal("a"), literal("b")]),
        Ok(vec!["a".to_string(), "b".to_string()])
    );
    assert_eq!(names_from(&vec![]), Ok(vec![]));
    assert_eq!(
        names_from(&vec![literal("a"), leaf(Rule::Expr, "b"), number("1")]),
        Err(ParseError::InvalidRule(Reading::Name, Rule::Expr))
    );
}

#[test]
fn number_is_a_byte() {
    assert_eq!(number_from(&number("0")), Ok(0));
    assert_eq!(number_from(&number("255")), Ok(255));
    assert_eq!(
        number_from(&number("256")),
        Err(ParseError::InvalidNumber("256".to_string()))
    );
    assert_eq!(
        number_from(&number("")),
        Err(ParseError::InvalidNumber(String::new()))
    );
    assert_eq!(
        number_from(&literal("1")),
        Err(ParseError::InvalidRule(Reading::Number, Rule::Literal))
    );
}

#[test]
fn test_is_one_of_two_comparisons() {
    assert_eq!(test_from(&leaf(Rule::Test, "==")), Ok(BooleanTest::Equals));
    assert_eq!(test_from(&leaf(Rule::Test, "!=")), Ok(BooleanTest::NotEquals));
    assert_eq!(
        test_from(&leaf(Rule::Test, "<")),
        Err(ParseError::InvalidTest("<".to_string()))
    );
    assert_eq!(
        test_from(&literal("==")),
        Err(ParseError::InvalidRule(Reading::Test, Rule::Literal))
    );
}

#[test]
fn expression_is_read_through_its_wrappers() {
    assert!(matches!(
        expression_from(&expr(expr(literal("v")))),
        Ok(Expression::Variable(name)) if name == "v"
    ));
    assert!(matches!(expression_from(&number("7")), Ok(Expression::Number(7))));
    let read = expression_from(&call("f", vec![expr(number("1")), call("g", vec![])])).unwrap();
    match read {
        Expression::FunctionCall(name, args) => {
            assert_eq!(name, "f");
            assert_eq!(args.len(), 2);
            assert!(matches!(args[0], Expression::Number(1)));
            assert!(
                matches!(&args[1], Expression::FunctionCall(name, args) if name == "g" && args.is_empty())
            );
        }
        other => panic!("{:?}", other),
    }
}

#[test]
fn expression_failures() {
    assert_eq!(
        expression_from(&leaf(Rule::Test, "==")).unwrap_err(),
        ParseError::InvalidRule(Reading::Expression, Rule::Test)
    );
    assert_eq!(
        expression_from(&node(Rule::Expr, "", vec![])).unwrap_err(),
        ParseError::MissingPart(Rule::Expr)
    );
    assert_eq!(
        expression_from(&node(Rule::FuncCall, "", vec![])).unwrap_err(),
        ParseError::MissingPart(Rule::FuncCall)
    );
    assert_eq!(
        expression_from(&node(Rule::FuncCall, "", vec![literal("f")])).unwrap_err(),
        ParseError::MissingPart(Rule::FuncCall)
    );
    assert_eq!(
        expression_from(&node(Rule::FuncCall, "", vec![number("1")])).unwrap_err(),
        ParseError::InvalidRule(Reading::Name, Rule::Number)
    );
    assert_eq!(
        expression_from(&call("f", vec![number("1"), number("300"), leaf(Rule::Test, "")]))
            .unwrap_err(),
        ParseError::InvalidNumber("300".to_string())
    );
    assert_eq!(
        expressions_from(&vec![leaf(Rule::Empty, "")]).unwrap_err(),
        ParseError::InvalidRule(Reading::Expression, Rule::Empty)
    );
    assert!(matches!(
        optional_expression_from(&leaf(Rule::Empty, "")),
        Ok(None)
    ));
    assert!(matches!(
        optional_expression_from(&number("3")),
        Ok(Some(Expression::Number(3)))
    ));
}

#[test]
fn boolean_expression_has_three_parts() {
    let read = boolean_expression_from(&node(
        Rule::BooleanExpr,
        "",
        vec![literal("a"), leaf(Rule::Test, "!="), number("0")],
    ))
    .unwrap();
    assert!(matches!(&read.0, Expression::Variable(name) if name == "a"));
    assert_eq!(read.1, BooleanTest::NotEquals);
    assert!(matches!(read.2, Expression::Number(0)));
    assert_eq!(
        boolean_expression_from(&node(
            Rule::BooleanExpr,
            "",
            vec![literal("a"), leaf(Rule::Test, "!=")]
        ))
        .unwrap_err(),
        ParseError::MissingPart(Rule::BooleanExpr)
    );
    assert_eq!(
        boolean_expression_from(&literal("a")).unwrap_err(),
        ParseError::InvalidRule(Reading::BooleanExpression, Rule::Literal)
    );
}

#[test]
fn each_instruction_is_read() {
    assert!(matches!(
        instruction_from(&instruction(leaf(Rule::IContinue, ""))),
        Ok(Instruction::Continue)
    ));
    assert!(matches!(
        instruction_from(&leaf(Rule::IBreak, "")),
        Ok(Instruction::Break)
    ));
    assert!(matches!(
        instruction_from(&node(Rule::IExpr, "", vec![expr(number("1"))])),
        Ok(Instruction::Expression(Expression::Number(1)))
    ));
    assert!(matches!(
        instruction_from(&node(Rule::IReturn, "", vec![leaf(Rule::Empty, "")])),
        Ok(Instruction::Return(None))
    ));
    assert!(matches!(
        instruction_from(&node(Rule::IReturn, "", vec![expr(literal("v"))])),
        Ok(Instruction::Return(Some(Expression::Variable(name)))) if name == "v"
    ));
    assert!(matches!(
        instruction_from(&node(Rule::IAssign, "", vec![literal("a"), number("2")])),
        Ok(Instruction::Assign(name, value))
            if name == "a" && matches!(*value, Expression::Number(2))
    ));
    assert!(matches!(
        instruction_from(&node(Rule::ILoop, "", vec![block(vec![leaf(Rule::IBreak, "")])])),
        Ok(Instruction::Loop(body)) if matches!(body.code[..], [Instruction::Break])
    ));
    let test = || {
        node(
            Rule::BooleanExpr,
            "",
            vec![literal("a"), leaf(Rule::Test, "=="), number("0")],
        )
    };
    assert!(matches!(
        instruction_from(&node(
            Rule::IfBlock,
            "",
            vec![test(), block(vec![]), leaf(Rule::Empty, "")]
        )),
        Ok(Instruction::If(_, then_block, None)) if then_block.code.is_empty()
    ));
    assert!(matches!(
        instruction_from(&node(
            Rule::IfBlock,
            "",
            vec![test(), block(vec![]), block(vec![leaf(Rule::IContinue, "")])]
        )),
        Ok(Instruction::If(_, _, Some(else_block)))
            if matches!(else_block.code[..], [Instruction::Continue])
    ));
}

#[test]
fn instruction_failures() {
    assert_eq!(
        instruction_from(&literal("a")).unwrap_err(),
        ParseError::InvalidRule(Reading::Instruction, Rule::Literal)
    );
    for rule in [
        Rule::Instruction,
        Rule::IExpr,
        Rule::ILoop,
        Rule::IReturn,
        Rule::IAssign,
        Rule::IfBlock,
    ] {
        assert_eq!(
            instruction_from(&node(rule, "", vec![])).unwrap_err(),
            ParseError::MissingPart(rule)
        );
    }
    assert_eq!(
        instruction_from(&node(Rule::IAssign, "", vec![literal("a")])).unwrap_err(),
        ParseError::MissingPart(Rule::IAssign)
    );
    assert_eq!(
        instruction_from(&node(Rule::ILoop, "", vec![literal("a")])).unwrap_err(),
        ParseError::InvalidRule(Reading::CodeBlock, Rule::Literal)
    );
    assert_eq!(
        instructions_from(&vec![leaf(Rule::IBreak, ""), leaf(Rule::Empty, "")]).unwrap_err(),
        ParseError::InvalidRule(Reading::Instruction, Rule::Empty)
    );
    assert_eq!(
        code_block_from(&leaf(Rule::Empty, "")).unwrap_err(),
        ParseError::InvalidRule(Reading::CodeBlock, Rule::Empty)
    );
    assert!(matches!(
        optional_code_block_from(&leaf(Rule::Empty, "")),
        Ok(None)
    ));
}

#[test]
fn elements_of_a_file_are_read_and_compiled() {
    let tree = node(
        Rule::File,
        "",
        vec![
            node(
                Rule::ExternFunction,
                "",
                vec![literal("out"), list(vec![literal("v")])],
            ),
            node(
                Rule::Function,
                "",
                vec![
                    literal("main"),
                    list(vec![]),
                    block(vec![instruction(node(
                        Rule::IExpr,
                        "",
                        vec![expr(call("out", vec![expr(number("3"))]))],
                    ))]),
                ],
            ),
            leaf(Rule::EndOfInput, ""),
        ],
    );
    let elements = file_from(&tree).unwrap();
    assert_eq!(elements.len(), 2);
    assert!(matches!(
        &elements[0],
        FileElement::FunctionExtern(name, parameters)
            if name == "out" && parameters == &vec!["v".to_string()]
    ));
    assert!(matches!(
        &elements[1],
        FileElement::Function(name, parameters, body)
            if name == "main" && parameters.is_empty() && body.code.len() == 1
    ));
    assert_eq!(compile_file(&elements), Ok(vec!["out &3".to_string()]));
}

#[test]
fn element_failures() {
    assert!(matches!(element_from(&leaf(Rule::EndOfInput, "")), Ok(None)));
    assert_eq!(
        element_from(&literal("f")).unwrap_err(),
        ParseError::InvalidRule(Reading::FileElement, Rule::Literal)
    );
    assert_eq!(
        element_from(&node(Rule::Function, "", vec![literal("f"), list(vec![])])).unwrap_err(),
        ParseError::MissingPart(Rule::Function)
    );
    assert_eq!(
        element_from(&node(Rule::ExternFunction, "", vec![literal("f")])).unwrap_err(),
        ParseError::MissingPart(Rule::ExternFunction)
    );
    assert_eq!(
        file_from(&node(
            Rule::File,
            "",
            vec![leaf(Rule::EndOfInput, ""), literal("f"), leaf(Rule::Test, "")]
        ))
        .unwrap_err(),
        ParseError::InvalidRule(Reading::FileElement, Rule::Literal)
    );
    assert_eq!(file_from(&leaf(Rule::File, "")), Ok(vec![]));
}

#[test]
fn messages_name_the_rule() {
    assert_eq!(
        ParseError::InvalidRule(Reading::Expression, Rule::IfBlock).message(),
        "Invalid rule 8 : if_block"
    );
    assert_eq!(
        ParseError::InvalidRule(Reading::Name, Rule::EndOfInput).message(),
        "Invalid rule 0 : EOI"
    );
    assert_eq!(
        ParseError::InvalidNumber("300".to_string()).message(),
        "Invalid number : 300"
    );
    assert_eq!(
        ParseError::InvalidTest("<".to_string()).message(),
        "Invalid string : <"
    );
    assert_eq!(
        ParseError::MissingPart(Rule::FuncCall).message(),
        "Missing part of func_call"
    );
    assert_eq!(Rule::Other.name(), "other");
    assert_eq!(Reading::CodeBlock.name(), "7");
}
