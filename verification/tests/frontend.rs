use cythanc::ast::{
    BooleanExpression, BooleanTest, CodeBlock, Expression, FileElement, Instruction,
};
use cythanc::compiler::{compile_file, CompilationContext, CompileError, FunctionContext};

fn var(name: &str) -> Expression {
    Expression::Variable(name.to_string())
}

fn num(n: u8) -> Expression {
    Expression::Number(n)
}

fn call(name: &str, args: Vec<Expression>) -> Expression {
    Expression::FunctionCall(name.to_string(), args)
}

fn assign(target: &str, value: Expression) -> Instruction {
    Instruction::Assign(target.to_string(), Box::new(value))
}

fn block(code: Vec<Instruction>) -> CodeBlock {
    CodeBlock { code }
}

fn names(list: &[&str]) -> Vec<String> {
    list.iter().map(|s| s.to_string()).collect()
}

fn function(name: &str, parameters: &[&str], code: Vec<Instruction>) -> FileElement {
    FileElement::Function(name.to_string(), names(parameters), block(code))
}

fn external(name: &str, parameters: &[&str]) -> FileElement {
    FileElement::FunctionExtern(name.to_string(), names(parameters))
}

fn lines(list: &[&str]) -> Vec<String> {
    names(list)
}

#[test]
fn number_sets_an_immediate_place_and_emits_nothing() {
    let mut context = CompilationContext::default();
    num(7).compile(&mut context).unwrap();
    assert_eq!(context.current_expression_out_expr, "&7");
    assert!(context.asm_file.is_empty());
    num(255).compile(&mut context).unwrap();
    assert_eq!(context.current_expression_out_expr, "&255");
    num(0).compile(&mut context).unwrap();
    assert_eq!(context.current_expression_out_expr, "&0");
    assert_eq!(context.counter, 0);
}

#[test]
fn variable_is_declared_once() {
    let mut context = CompilationContext::new();
    var("a").compile(&mut context).unwrap();
    assert_eq!(context.current_expression_out_expr, "a");
    var("b").compile(&mut context).unwrap();
    assert_eq!(context.current_expression_out_expr, "b");
    var("a").compile(&mut context).unwrap();
    assert_eq!(context.current_expression_out_expr, "a");
    assert_eq!(context.asm_file, lines(&["let a 0", "let b 0"]));
    assert!(context.existing_vars.contains("a"));
    assert!(context.existing_vars.contains("b"));
    assert!(!context.existing_vars.contains("c"));
}

#[test]
fn parameter_is_referred_to_with_a_dollar_and_not_declared() {
    let mut context = CompilationContext::new();
    context.current_function_context = Some(FunctionContext::new("f", &names(&["x", "y"])));
    var("x").compile(&mut context).unwrap();
    assert_eq!(context.current_expression_out_expr, "$x");
    var("y").compile(&mut context).unwrap();
    assert_eq!(context.current_expression_out_expr, "$y");
    assert!(context.asm_file.is_empty());
    var("z").compile(&mut context).unwrap();
    assert_eq!(context.current_expression_out_expr, "z");
    assert_eq!(context.asm_file, lines(&["let z 0"]));
}

#[test]
fn function_context_knows_its_name_and_arguments() {
    let f = FunctionContext::new("f", &names(&["x", "y"]));
    assert_eq!(f.name(), "f");
    assert!(f.is_argument("x"));
    assert!(f.is_argument("y"));
    assert!(!f.is_argument("f"));
}

#[test]
fn count_hands_out_increasing_ids() {
    let mut context = CompilationContext::new();
    assert_eq!(context.count(), 1);
    assert_eq!(context.count(), 2);
    assert_eq!(context.count(), 3);
    assert_eq!(context.counter, 3);
}

#[test]
fn add_and_add_str_append_lines() {
    let mut context = CompilationContext::new();
    context.add("first".to_string());
    context.add_str("second");
    assert_eq!(context.asm_file, lines(&["first", "second"]));
}

#[test]
fn check_func_accepts_a_declared_function_with_the_right_arity() {
    let mut context = CompilationContext::new();
    external("put", &["a", "b"]).compile(&mut context).unwrap();
    assert_eq!(context.check_func("put", &vec![num(1), num(2)]), Ok(()));
    assert_eq!(
        context.check_func("put", &vec![num(1)]),
        Err(CompileError::WrongArgumentCount)
    );
    assert_eq!(
        context.check_func("get", &vec![]),
        Err(CompileError::UnknownFunction("get".to_string()))
    );
}

#[test]
fn call_of_a_compiled_function_copies_the_result_into_a_temporary() {
    let mut context = CompilationContext::new();
    function("f", &["x"], vec![Instruction::Return(Some(var("x")))])
        .compile(&mut context)
        .unwrap();
    let before = context.asm_file.len();
    call("f", vec![num(3)]).compile(&mut context).unwrap();
    assert_eq!(
        context.asm_file[before..].to_vec(),
        lines(&["call f &3", "let TMP1 0", "set TMP1 f_out"])
    );
    assert_eq!(context.current_expression_out_expr, "TMP1");
}

#[test]
fn call_of_an_extern_function_emits_one_line() {
    let mut context = CompilationContext::new();
    external("print", &["a", "b"]).compile(&mut context).unwrap();
    call("print", vec![var("v"), num(4)]).compile(&mut context).unwrap();
    assert_eq!(context.asm_file, lines(&["let v 0", "print v &4"]));
    assert_eq!(context.current_expression_out_expr, "&4");
    assert_eq!(context.counter, 1);
}

#[test]
fn call_without_arguments_keeps_the_separating_space() {
    let mut context = CompilationContext::new();
    external("halt", &[]).compile(&mut context).unwrap();
    function("g", &[], vec![]).compile(&mut context).unwrap();
    call("halt", vec![]).compile(&mut context).unwrap();
    call("g", vec![]).compile(&mut context).unwrap();
    assert_eq!(
        context.asm_file,
        lines(&[
            "let g_out 0",
            "func g ",
            "end_func",
            "halt ",
            "call g ",
            "let TMP2 0",
            "set TMP2 g_out"
        ])
    );
}

#[test]
fn nested_calls_compile_arguments_from_the_left() {
    let mut context = CompilationContext::new();
    function("f", &["x", "y"], vec![]).compile(&mut context).unwrap();
    let before = context.asm_file.len();
    call("f", vec![call("f", vec![num(1), num(2)]), var("a")])
        .compile(&mut context)
        .unwrap();
    assert_eq!(
        context.asm_file[before..].to_vec(),
        lines(&[
            "call f &1 &2",
            "let TMP2 0",
            "set TMP2 f_out",
            "let a 0",
            "call f TMP2 a",
            "let TMP1 0",
            "set TMP1 f_out"
        ])
    );
    assert_eq!(context.current_expression_out_expr, "TMP1");
}

#[test]
fn call_with_one_argument_to_a_two_parameter_function_is_an_arity_error() {
    let mut context = CompilationContext::new();
    function("f", &["x", "y"], vec![]).compile(&mut context).unwrap();
    let before = context.asm_file.clone();
    let r = call("f", vec![num(1)]).compile(&mut context);
    assert_eq!(r, Err(CompileError::WrongArgumentCount));
    assert_eq!(r.unwrap_err().message(), "Invalid number of arguments");
    assert_eq!(context.asm_file, before);
    assert_eq!(context.counter, 1);
}

#[test]
fn call_of_an_undeclared_function_is_a_reference_error() {
    let mut context = CompilationContext::new();
    let r = call("nowhere", vec![]).compile(&mut context);
    assert_eq!(r, Err(CompileError::UnknownFunction("nowhere".to_string())));
    assert_eq!(r.unwrap_err().message(), "Can't find function nowhere");
    assert!(context.asm_file.is_empty());
}

#[test]
fn a_failing_argument_stops_the_call() {
    let mut context = CompilationContext::new();
    external("put", &["a", "b"]).compile(&mut context).unwrap();
    let r = call("put", vec![var("a"), call("nowhere", vec![])]).compile(&mut context);
    assert_eq!(r, Err(CompileError::UnknownFunction("nowhere".to_string())));
    assert_eq!(context.asm_file, lines(&["let a 0"]));
    assert_eq!(context.counter, 2);
}

#[test]
fn counter_at_its_limit_refuses_a_call() {
    let mut context = CompilationContext::new();
    external("halt", &[]).compile(&mut context).unwrap();
    context.counter = usize::MAX;
    let r = call("halt", vec![]).compile(&mut context);
    assert_eq!(r, Err(CompileError::CounterExhausted));
    assert_eq!(context.counter, usize::MAX);
    assert!(context.asm_file.is_empty());
    let r = Instruction::Loop(block(vec![])).compile(&mut context);
    assert_eq!(r, Err(CompileError::CounterExhausted));
    let r = Instruction::If(
        BooleanExpression(var("a"), BooleanTest::Equals, num(0)),
        block(vec![]),
        None,
    )
    .compile(&mut context);
    assert_eq!(r, Err(CompileError::CounterExhausted));
    assert_eq!(
        r.unwrap_err().message(),
        "Too many calls, conditionals and loops"
    );
}

#[test]
fn equals_runs_the_then_block_behind_the_label_taken_on_zero() {
    let mut context = CompilationContext::new();
    Instruction::If(
        BooleanExpression(var("a"), BooleanTest::Equals, num(0)),
        block(vec![assign("r", num(1))]),
        Some(block(vec![assign("r", num(2))])),
    )
    .compile(&mut context)
    .unwrap();
    assert_eq!(
        context.asm_file,
        lines(&[
            "let a 0",
            "if_0 a 'if_true1",
            "set r &2",
            "jump 'if_end1",
            "label 'if_true1",
            "set r &1",
            "label 'if_end1"
        ])
    );
}

#[test]
fn not_equals_runs_the_else_block_behind_the_label_taken_on_zero() {
    let mut context = CompilationContext::new();
    Instruction::If(
        BooleanExpression(var("a"), BooleanTest::NotEquals, num(0)),
        block(vec![assign("r", num(1))]),
        Some(block(vec![assign("r", num(2))])),
    )
    .compile(&mut context)
    .unwrap();
    assert_eq!(
        context.asm_file,
        lines(&[
            "let a 0",
            "if_0 a 'if_false1",
            "set r &1",
            "jump 'if_end1",
            "label 'if_false1",
            "set r &2",
            "label 'if_end1"
        ])
    );
}

#[test]
fn conditional_without_else_block() {
    let mut context = CompilationContext::new();
    Instruction::If(
        BooleanExpression(num(0), BooleanTest::Equals, var("b")),
        block(vec![assign("r", num(1))]),
        None,
    )
    .compile(&mut context)
    .unwrap();
    Instruction::If(
        BooleanExpression(num(0), BooleanTest::NotEquals, var("b")),
        block(vec![assign("r", num(1))]),
        None,
    )
    .compile(&mut context)
    .unwrap();
    assert_eq!(
        context.asm_file,
        lines(&[
            "let b 0",
            "if_0 b 'if_true1",
            "jump 'if_end1",
            "label 'if_true1",
            "set r &1",
            "label 'if_end1",
            "if_0 b 'if_false2",
            "set r &1",
            "jump 'if_end2",
            "label 'if_false2",
            "label 'if_end2"
        ])
    );
}

#[test]
fn conditional_on_two_values_calls_sub() {
    let mut context = CompilationContext::new();
    function("sub", &["x", "y"], vec![]).compile(&mut context).unwrap();
    let before = context.asm_file.len();
    Instruction::If(
        BooleanExpression(var("a"), BooleanTest::Equals, var("b")),
        block(vec![]),
        None,
    )
    .compile(&mut context)
    .unwrap();
    assert_eq!(
        context.asm_file[before..].to_vec(),
        lines(&[
            "let a 0",
            "let b 0",
            "call sub a b",
            "let TMP2 0",
            "set TMP2 sub_out",
            "if_0 TMP2 'if_true1",
            "jump 'if_end1",
            "label 'if_true1",
            "label 'if_end1"
        ])
    );
}

#[test]
fn conditional_on_two_values_is_the_call_of_sub() {
    let mut with_if = CompilationContext::new();
    let mut with_call = CompilationContext::new();
    function("sub", &["x", "y"], vec![]).compile(&mut with_if).unwrap();
    function("sub", &["x", "y"], vec![]).compile(&mut with_call).unwrap();
    with_call.count();
    call("sub", vec![var("a"), num(3)]).compile(&mut with_call).unwrap();
    Instruction::If(
        BooleanExpression(var("a"), BooleanTest::Equals, num(3)),
        block(vec![]),
        None,
    )
    .compile(&mut with_if)
    .unwrap();
    let shared = with_call.asm_file.len();
    assert_eq!(with_if.asm_file[..shared].to_vec(), with_call.asm_file);
}

#[test]
fn conditional_without_sub_is_a_reference_error() {
    let mut context = CompilationContext::new();
    let r = Instruction::If(
        BooleanExpression(var("a"), BooleanTest::Equals, var("b")),
        block(vec![]),
        None,
    )
    .compile(&mut context);
    assert_eq!(r, Err(CompileError::UnknownFunction("sub".to_string())));
    assert_eq!(context.counter, 2);
}

#[test]
fn nested_conditionals_get_distinct_labels() {
    let mut context = CompilationContext::new();
    Instruction::If(
        BooleanExpression(var("a"), BooleanTest::Equals, num(0)),
        block(vec![Instruction::If(
            BooleanExpression(var("b"), BooleanTest::NotEquals, num(0)),
            block(vec![]),
            None,
        )]),
        None,
    )
    .compile(&mut context)
    .unwrap();
    assert_eq!(
        context.asm_file,
        lines(&[
            "let a 0",
            "if_0 a 'if_true1",
            "jump 'if_end1",
            "label 'if_true1",
            "let b 0",
            "if_0 b 'if_false2",
            "jump 'if_end2",
            "label 'if_false2",
            "label 'if_end2",
            "label 'if_end1"
        ])
    );
}

#[test]
fn loop_with_break_and_continue() {
    let mut context = CompilationContext::new();
    Instruction::Loop(block(vec![
        Instruction::Continue,
        Instruction::Loop(block(vec![Instruction::Break, Instruction::Continue])),
        Instruction::Break,
    ]))
    .compile(&mut context)
    .unwrap();
    assert_eq!(
        context.asm_file,
        lines(&[
            "label 'for1",
            "jump 'for1",
            "label 'for2",
            "jump 'for_end2",
            "jump 'for2",
            "label 'for_end2",
            "jump 'for_end1",
            "label 'for_end1"
        ])
    );
    assert!(context.loops.is_empty());
}

#[test]
fn continue_outside_of_a_loop_fails() {
    let mut context = CompilationContext::new();
    let r = Instruction::Continue.compile(&mut context);
    assert_eq!(r, Err(CompileError::NoEnclosingLoop));
    assert!(r.unwrap_err().message().contains("no enclosing loop"));
    assert!(context.asm_file.is_empty());
}

#[test]
fn break_outside_of_a_loop_fails() {
    let mut context = CompilationContext::new();
    assert_eq!(
        Instruction::Break.compile(&mut context),
        Err(CompileError::NoEnclosingLoop)
    );
    Instruction::Loop(block(vec![])).compile(&mut context).unwrap();
    assert_eq!(
        Instruction::Break.compile(&mut context),
        Err(CompileError::NoEnclosingLoop)
    );
}

#[test]
fn return_outside_of_a_function_fails() {
    let mut context = CompilationContext::new();
    let r = Instruction::Return(Some(num(1))).compile(&mut context);
    assert_eq!(r, Err(CompileError::ReturnOutsideFunction));
    assert_eq!(
        r.unwrap_err().message(),
        "Can't use return outside of a function"
    );
    assert!(context.asm_file.is_empty());
    assert_eq!(
        Instruction::Return(None).compile(&mut context),
        Err(CompileError::ReturnOutsideFunction)
    );
}

#[test]
fn return_in_main_fails() {
    let r = compile_file(&vec![
        function("f", &[], vec![]),
        function("main", &[], vec![Instruction::Return(None)]),
    ]);
    assert_eq!(r, Err(CompileError::ReturnOutsideFunction));
}

#[test]
fn return_with_and_without_a_value() {
    let mut context = CompilationContext::new();
    function(
        "f",
        &["x"],
        vec![
            Instruction::Return(Some(num(9))),
            Instruction::Return(None),
            Instruction::Return(Some(var("x"))),
        ],
    )
    .compile(&mut context)
    .unwrap();
    assert_eq!(
        context.asm_file,
        lines(&[
            "let f_out 0",
            "func f x",
            "set f_out &9",
            "ret",
            "ret",
            "set f_out $x",
            "ret",
            "end_func"
        ])
    );
}

#[test]
fn assignment_stores_the_value() {
    let mut context = CompilationContext::new();
    assign("a", var("b")).compile(&mut context).unwrap();
    assign("a", num(12)).compile(&mut context).unwrap();
    assert_eq!(
        context.asm_file,
        lines(&["let b 0", "set a b", "set a &12"])
    );
}

#[test]
fn expression_statement_is_compiled_for_its_effect() {
    let mut context = CompilationContext::new();
    external("out", &["v"]).compile(&mut context).unwrap();
    Instruction::Expression(call("out", vec![num(1)]))
        .compile(&mut context)
        .unwrap();
    assert_eq!(context.asm_file, lines(&["out &1"]));
}

#[test]
fn block_stops_at_the_first_failure() {
    let mut context = CompilationContext::new();
    let r = block(vec![
        assign("a", num(1)),
        Instruction::Break,
        assign("b", num(2)),
    ])
    .compile(&mut context);
    assert_eq!(r, Err(CompileError::NoEnclosingLoop));
    assert_eq!(context.asm_file, lines(&["set a &1"]));
}

#[test]
fn extern_declaration_emits_nothing_and_registers_the_function() {
    let mut context = CompilationContext::new();
    external("out", &["v"]).compile(&mut context).unwrap();
    assert!(context.asm_file.is_empty());
    assert_eq!(context.counter, 0);
    let entry = context.functions_refs.get("out").unwrap();
    assert!(entry.0);
    assert_eq!(entry.1, names(&["v"]));
    assert_eq!(
        call("out", vec![]).compile(&mut context),
        Err(CompileError::WrongArgumentCount)
    );
    assert_eq!(
        call("out", vec![num(1), num(2)]).compile(&mut context),
        Err(CompileError::WrongArgumentCount)
    );
    assert_eq!(call("out", vec![num(1)]).compile(&mut context), Ok(()));
}

#[test]
fn function_is_wrapped_and_registered_after_its_body() {
    let mut context = CompilationContext::new();
    function("f", &["x", "y"], vec![assign("a", var("y"))])
        .compile(&mut context)
        .unwrap();
    assert_eq!(
        context.asm_file,
        lines(&["let f_out 0", "func f x y", "set a $y", "end_func"])
    );
    let entry = context.functions_refs.get("f").unwrap();
    assert!(!entry.0);
    assert_eq!(entry.1, names(&["x", "y"]));
}

#[test]
fn function_cannot_call_itself() {
    let mut context = CompilationContext::new();
    let r = function("f", &[], vec![Instruction::Expression(call("f", vec![]))])
        .compile(&mut context);
    assert_eq!(r, Err(CompileError::UnknownFunction("f".to_string())));
    assert_eq!(context.asm_file, lines(&["let f_out 0", "func f "]));
    assert!(context.functions_refs.get("f").is_none());
}

#[test]
fn main_is_compiled_in_place_and_cannot_be_called() {
    let mut context = CompilationContext::new();
    function("f", &["x"], vec![]).compile(&mut context).unwrap();
    let before = context.asm_file.len();
    function("main", &["x"], vec![assign("a", var("x"))])
        .compile(&mut context)
        .unwrap();
    assert_eq!(
        context.asm_file[before..].to_vec(),
        lines(&["let x 0", "set a x"])
    );
    assert!(context.current_function_context.is_none());
    assert!(context.functions_refs.get("main").is_none());
    assert_eq!(
        call("main", vec![num(1)]).compile(&mut context),
        Err(CompileError::UnknownFunction("main".to_string()))
    );
}

#[test]
fn two_calls_of_one_function_keep_their_results_apart() {
    let r = compile_file(&vec![
        function("f", &["x"], vec![Instruction::Return(Some(var("x")))]),
        function(
            "main",
            &[],
            vec![assign("a", call("f", vec![num(1)])), assign("b", call("f", vec![num(2)]))],
        ),
    ])
    .unwrap();
    assert_eq!(
        r,
        lines(&[
            "let f_out 0",
            "func f x",
            "set f_out $x",
            "ret",
            "end_func",
            "call f &1",
            "let TMP1 0",
            "set TMP1 f_out",
            "set a TMP1",
            "call f &2",
            "let TMP2 0",
            "set TMP2 f_out",
            "set b TMP2"
        ])
    );
}

#[test]
fn compile_file_of_nothing_is_empty() {
    assert_eq!(compile_file(&vec![]), Ok(vec![]));
}

#[test]
fn compile_file_stops_at_the_first_failing_element() {
    let r = compile_file(&vec![
        function("main", &[], vec![Instruction::Expression(call("g", vec![]))]),
        function("g", &[], vec![]),
    ]);
    assert_eq!(r, Err(CompileError::UnknownFunction("g".to_string())));
}

#[test]
fn compiling_twice_gives_the_same_lines() {
    let program = || {
        vec![
            external("out", &["v"]),
            function(
                "sub",
                &["x", "y"],
                vec![Instruction::Loop(block(vec![
                    Instruction::If(
                        BooleanExpression(var("y"), BooleanTest::Equals, num(0)),
                        block(vec![Instruction::Return(Some(var("x")))]),
                        None,
                    ),
                    Instruction::Expression(call("out", vec![var("x")])),
                ]))],
            ),
            function(
                "main",
                &[],
                vec![Instruction::If(
                    BooleanExpression(var("a"), BooleanTest::NotEquals, var("b")),
                    block(vec![assign("a", call("sub", vec![var("a"), num(1)]))]),
                    Some(block(vec![Instruction::Expression(call("out", vec![num(0)]))])),
                )],
            ),
        ]
    };
    let first = compile_file(&program()).unwrap();
    let second = compile_file(&program()).unwrap();
    assert_eq!(first, second);
    assert_eq!(
        first,
        lines(&[
            "let sub_out 0",
            "func sub x y",
            "label 'for1",
            "if_0 $y 'if_true2",
            "jump 'if_end2",
            "label 'if_true2",
            "set sub_out $x",
            "ret",
            "label 'if_end2",
            "out $x",
            "label 'for_end1",
            "end_func",
            "let a 0",
            "let b 0",
            "call sub a b",
            "let TMP5 0",
            "set TMP5 sub_out",
            "if_0 TMP5 'if_false4",
            "call sub a &1",
            "let TMP6 0",
            "set TMP6 sub_out",
            "set a TMP6",
            "jump 'if_end4",
            "label 'if_false4",
            "out &0",
            "label 'if_end4"
        ])
    );
}

fn count_of(lines: &[String], line: &str) -> usize {
    lines.iter().filter(|l| l.as_str() == line).count()
}

#[test]
fn every_label_and_every_temporary_is_defined_once() {
    let conditional = |inner: Vec<Instruction>| {
        Instruction::If(
            BooleanExpression(call("f", vec![var("a")]), BooleanTest::NotEquals, var("b")),
            block(inner),
            Some(block(vec![Instruction::Loop(block(vec![Instruction::Break]))])),
        )
    };
    let program = vec![
        function("sub", &["x", "y"], vec![Instruction::Return(Some(var("x")))]),
        function("f", &["x"], vec![Instruction::Loop(block(vec![Instruction::Break]))]),
        function(
            "main",
            &[],
            vec![
                conditional(vec![conditional(vec![]), Instruction::Loop(block(vec![]))]),
                conditional(vec![assign("a", call("f", vec![call("f", vec![num(1)])]))]),
            ],
        ),
    ];
    let lines = compile_file(&program).unwrap();
    let mut defining = 0;
    for line in &lines {
        let is_label = line.starts_with("label '");
        let is_temporary = line.starts_with("let TMP");
        if is_label || is_temporary {
            defining += 1;
            assert_eq!(count_of(&lines, line), 1, "{}", line);
        }
    }
    assert_eq!(defining, 24);
}

#[test]
fn two_calls_in_a_row_declare_two_temporaries() {
    let mut context = CompilationContext::new();
    function("f", &[], vec![]).compile(&mut context).unwrap();
    call("f", vec![]).compile(&mut context).unwrap();
    let first = context.current_expression_out_expr.clone();
    call("f", vec![]).compile(&mut context).unwrap();
    let second = context.current_expression_out_expr.clone();
    assert_eq!(first, "TMP1");
    assert_eq!(second, "TMP2");
    assert_eq!(count_of(&context.asm_file, "let TMP1 0"), 1);
    assert_eq!(count_of(&context.asm_file, "let TMP2 0"), 1);
}

#[test]
fn a_variable_named_like_a_temporary_is_declared_beside_it() {
    let mut context = CompilationContext::new();
    function("f", &[], vec![]).compile(&mut context).unwrap();
    var("TMP1").compile(&mut context).unwrap();
    call("f", vec![]).compile(&mut context).unwrap();
    assert_eq!(context.current_expression_out_expr, "TMP1");
    assert_eq!(count_of(&context.asm_file, "let TMP1 0"), 2);
}

#[test]
fn a_function_of_the_target_named_label_can_repeat_a_label() {
    let mut context = CompilationContext::new();
    external("label", &["l"]).compile(&mut context).unwrap();
    Instruction::Loop(block(vec![Instruction::Expression(call(
        "label",
        vec![var("'for1")],
    ))]))
    .compile(&mut context)
    .unwrap();
    assert_eq!(count_of(&context.asm_file, "label 'for1"), 2);
}
